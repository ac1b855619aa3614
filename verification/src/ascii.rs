//! The ASCII bytes that an ISO 8601 timestamp is made of.

use vstd::prelude::*;

verus! {

/// `'0'`
pub const ZERO: u8 = 48;

/// `'9'`
pub const NINE: u8 = 57;

/// `'+'`
pub const PLUS: u8 = 43;

/// `'-'`
pub const HYPHEN: u8 = 45;

/// `':'`
pub const COLON: u8 = 58;

/// `'.'`
pub const PERIOD: u8 = 46;

/// `','`
pub const COMMA: u8 = 44;

/// `' '`
pub const SPACE: u8 = 32;

/// `'_'`
pub const UNDERSCORE: u8 = 95;

/// `'T'`
pub const UPPER_T: u8 = 84;

/// `'t'`
pub const LOWER_T: u8 = 116;

/// `'Z'`
pub const UPPER_Z: u8 = 90;

/// `'z'`
pub const LOWER_Z: u8 = 122;

/// `'U'`
pub const UPPER_U: u8 = 85;

/// `'u'`
pub const LOWER_U: u8 = 117;

/// `'C'`
pub const UPPER_C: u8 = 67;

/// `'c'`
pub const LOWER_C: u8 = 99;

/// First byte of U+2212 MINUS SIGN in UTF-8.
pub const MINUS_SIGN_0: u8 = 0xe2;

/// Second byte of U+2212 MINUS SIGN in UTF-8.
pub const MINUS_SIGN_1: u8 = 0x88;

/// Third byte of U+2212 MINUS SIGN in UTF-8.
pub const MINUS_SIGN_2: u8 = 0x92;

/// Whether every byte of `s` is ASCII.
pub open spec fn all_ascii(s: Seq<u8>) -> bool {
    forall|i: int| 0 <= i < s.len() ==> #[trigger] s[i] < 128
}

} // verus!
