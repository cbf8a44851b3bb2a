//! Kernel module management: where the default modules live, and what
//! unloading means here.
//!
//! Opening the module files and issuing the loader syscall is the
//! runtime's business; the directory they are loaded from is computed
//! here.

use crate::uname::UnameInfo;
use vstd::prelude::*;

verus! {

use vstd::string::StringExecFns;

/// The directory holding the default modules of the given system:
/// `/lib/modules/<sysname>-<release>/default/`.  The runtime loads
/// every module file found under it, recursively.
pub fn load_default(uname: &UnameInfo) -> (path: String)
    ensures
        path@ == "/lib/modules/"@ + uname.sysname@ + "-"@ + uname.release@ + "/default/"@,
{
    let mut path = String::from_str("/lib/modules/");
    path.append(uname.sysname.as_str());
    path.append("-");
    path.append(uname.release.as_str());
    path.append("/default/");
    path
}

/// Unloads the module with the given name.
///
/// Module unloading is not part of this system: the call reports an
/// error, whatever the module.
pub fn unload(_name: &str) -> (r: Result<(), String>)
    ensures
        r is Err,
        r->Err_0@ == "module unloading is not supported"@,
{
    Err(String::from_str("module unloading is not supported"))
}

} // verus!
