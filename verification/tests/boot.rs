use solfege::module::{load_default, unload};
use solfege::uname::UnameInfo;
use solfege::util::get_timestamp;

fn uname() -> UnameInfo {
    UnameInfo {
        sysname: "Linux".to_string(),
        nodename: "host".to_string(),
        release: "6.1.0".to_string(),
        version: "#1 SMP".to_string(),
        machine: "x86_64".to_string(),
    }
}

#[test]
fn default_modules_directory() {
    assert_eq!(load_default(&uname()), "/lib/modules/Linux-6.1.0/default/");
}

#[test]
fn unload_reports_an_error() {
    assert_eq!(
        unload("snd_hda"),
        Err("module unloading is not supported".to_string())
    );
}

#[test]
fn timestamp_is_after_epoch() {
    assert!(get_timestamp() > 0);
}
