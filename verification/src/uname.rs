//! System identity, as the uname call reports it.

use vstd::prelude::*;

verus! {

/// The system identity records returned by the runtime's uname query.
#[derive(Debug)]
pub struct UnameInfo {
    /// Operating system name.
    pub sysname: String,
    /// Name within "some implementation-defined network".
    pub nodename: String,
    /// Operating system release.
    pub release: String,
    /// Operating system version.
    pub version: String,
    /// Hardware identifier.
    pub machine: String,
}

} // verus!
