//! The file intrinsics of a build without file support: each reports that
//! support is disabled and changes nothing. Hosts that enable files wire
//! the real reads and writes around the library instead.

use vstd::prelude::*;

verus! {

use crate::rt::Runtime;

/// The fixed report of the disabled file intrinsics.
pub open spec fn file_disabled_msg() -> Seq<char> {
    "File support is disabled"@
}

/// Reports that writing a text to a file is disabled.
pub fn save__string_file(_rt: &mut Runtime) -> (r: Result<(), String>)
    ensures
        *final(_rt) == *old(_rt),
        r matches Result::Err(m) && m@ == file_disabled_msg(),
{
    Result::Err("File support is disabled".to_owned())
}

/// Reports that reading a text from a file is disabled.
pub fn load_string__file(_rt: &mut Runtime) -> (r: Result<(), String>)
    ensures
        *final(_rt) == *old(_rt),
        r matches Result::Err(m) && m@ == file_disabled_msg(),
{
    Result::Err("File support is disabled".to_owned())
}

/// Reports that saving a value to a file is disabled.
pub fn save__data_file(_rt: &mut Runtime) -> (r: Result<(), String>)
    ensures
        *final(_rt) == *old(_rt),
        r matches Result::Err(m) && m@ == file_disabled_msg(),
{
    Result::Err("File support is disabled".to_owned())
}

} // verus!
