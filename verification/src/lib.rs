pub mod invocations;
pub mod module_list;
pub mod modules;
pub mod objekts;
pub mod renderers;
pub mod utils;
use vstd::prelude::*;

verus! {

/// How many errors are allowed.
pub const ALLOWED_ERRORS: u32 = 3;

/// A version: major, minor and patch numbers.
#[derive(Debug)]
pub struct EosVersion {
    pub major: u32,
    pub minor: u32,
    pub patch: u32,
}

impl Clone for EosVersion {
    fn clone(&self) -> (r: Self)
        ensures
            r == *self,
    {
        EosVersion { major: self.major, minor: self.minor, patch: self.patch }
    }
}

} // verus!
