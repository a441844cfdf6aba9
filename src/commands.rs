pub mod delete;
pub mod get;
pub mod regenerate;

use vstd::prelude::*;
use vstd::string::StringSliceAdditionalSpecFns;
use vstd::utf8::encode_utf8;

use crate::bytes::copy_bytes;

verus! {

/// The parsed command line handed to a command: the free arguments (the command
/// name first, then its operands) and the options that commands read.
pub struct Matches {
    pub free: Vec<String>,
    /// `--show`: print a new password instead of copying it.
    pub show: bool,
    /// `--alnum`: restrict generated passwords to letters and digits.
    pub alnum: bool,
    /// `--length <n>`, as typed.
    pub length: Option<String>,
}

/// The application name that a command operates on: the second free argument, as
/// UTF-8 bytes.
pub open spec fn app_name(m: &Matches) -> Seq<u8> {
    encode_utf8(m.free@[1]@)
}

/// The UTF-8 bytes of the application name operand.
pub fn app_name_bytes(m: &Matches) -> (r: Vec<u8>)
    requires
        m.free@.len() >= 2,
    ensures
        r@ == app_name(m),
{
    let s: &str = m.free[1].as_str();
    copy_bytes(s.as_bytes())
}

} // verus!
