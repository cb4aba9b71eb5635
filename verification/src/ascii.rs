//! The bytes of ASCII that the JSON grammar names.

use vstd::prelude::*;

verus! {

/// The byte of tab.
pub const TAB: u8 = 0x09;

/// The byte of line feed.
pub const LINE_FEED: u8 = 0x0A;

/// The byte of carriage return.
pub const CARRIAGE_RETURN: u8 = 0x0D;

/// The byte of space.
pub const SPACE: u8 = 0x20;

/// The byte of `"`.
pub const QUOTE: u8 = 0x22;

/// The byte of `,`.
pub const COMMA: u8 = 0x2C;

/// The byte of `-`.
pub const MINUS: u8 = 0x2D;

/// The byte of `.`.
pub const DOT: u8 = 0x2E;

/// The byte of `0`.
pub const DIGIT_0: u8 = 0x30;

/// The byte of `1`.
pub const DIGIT_1: u8 = 0x31;

/// The byte of `9`.
pub const DIGIT_9: u8 = 0x39;

/// The byte of `:`.
pub const COLON: u8 = 0x3A;

/// The byte of `A`.
pub const UPPER_A: u8 = 0x41;

/// The byte of `E`.
pub const UPPER_E: u8 = 0x45;

/// The byte of `F`.
pub const UPPER_F: u8 = 0x46;

/// The byte of `[`.
pub const LEFT_BRACKET: u8 = 0x5B;

/// The byte of `\\`.
pub const BACKSLASH: u8 = 0x5C;

/// The byte of `]`.
pub const RIGHT_BRACKET: u8 = 0x5D;

/// The byte of `a`.
pub const LOWER_A: u8 = 0x61;

/// The byte of `b`.
pub const LOWER_B: u8 = 0x62;

/// The byte of `e`.
pub const LOWER_E: u8 = 0x65;

/// The byte of `f`.
pub const LOWER_F: u8 = 0x66;

/// The byte of `l`.
pub const LOWER_L: u8 = 0x6C;

/// The byte of `n`.
pub const LOWER_N: u8 = 0x6E;

/// The byte of `r`.
pub const LOWER_R: u8 = 0x72;

/// The byte of `s`.
pub const LOWER_S: u8 = 0x73;

/// The byte of `t`.
pub const LOWER_T: u8 = 0x74;

/// The byte of `u`.
pub const LOWER_U: u8 = 0x75;

/// The byte of `{`.
pub const LEFT_BRACE: u8 = 0x7B;

/// The byte of `}`.
pub const RIGHT_BRACE: u8 = 0x7D;

} // verus!
