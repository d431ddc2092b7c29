//! Crate-wide fixed values and the one adjustable setting.
//!
//! The adjustable size is held in an explicit, injectable state object
//! instead of a process-wide mutable value, so callers create, read and
//! rewrite it locally; the version string is built on demand and is the
//! same on every call.

use vstd::prelude::*;
use vstd::string::StringExecFns;

verus! {

/// The fixed default size.
pub const SIZE: i32 = 10;

/// This crate's version string.
pub const VERSION: &'static str = "0.1.0";

/// The adjustable size setting, starting at its default of 20.
pub struct Settings {
    new_size: i32,
}

impl Settings {
    /// The currently configured size.
    pub closed spec fn size_setting(self) -> i32 {
        self.new_size
    }

    /// Fresh settings, with the size at its default of 20.
    pub fn new() -> (s: Settings)
        ensures
            s.size_setting() == 20,
    {
        Settings { new_size: 20 }
    }

    /// Read the configured size.
    pub fn new_size(&self) -> (r: i32)
        ensures
            r == self.size_setting(),
    {
        self.new_size
    }

    /// Rewrite the configured size.
    pub fn set_new_size(&mut self, value: i32)
        ensures
            final(self).size_setting() == value,
    {
        self.new_size = value;
    }
}

/// Build the version string; every call returns the same value,
/// `VERSION`.
pub fn new_version() -> (r: String)
    ensures
        r@ == VERSION@,
{
    let mut v = String::new();
    v.append(VERSION);
    proof {
        assert(v@ =~= VERSION@);
    }
    v
}

} // verus!
