//! Named ASCII byte values used by the grammar, escaping and path logic.

use vstd::prelude::*;

verus! {

pub const QUOTE: u8 = 34;

pub const COMMA: u8 = 44;

pub const LF: u8 = 10;

pub const CR: u8 = 13;

pub const MINUS: u8 = 45;

pub const PLUS: u8 = 43;

pub const DOT: u8 = 46;

pub const SLASH: u8 = 47;

pub const DIGIT_0: u8 = 48;

pub const DIGIT_9: u8 = 57;

pub const UPPER_E: u8 = 69;

pub const LOWER_E: u8 = 101;

pub const BACKSLASH: u8 = 92;

pub const TAB: u8 = 9;

pub const BACKSPACE: u8 = 8;

pub const FORMFEED: u8 = 12;

pub const SPACE: u8 = 32;

pub const STAR: u8 = 42;

pub const QUESTION: u8 = 63;

pub const LBRACKET: u8 = 91;

pub const RBRACKET: u8 = 93;

pub const LBRACE: u8 = 123;

pub const RBRACE: u8 = 125;

pub const COLON: u8 = 58;

pub const LOWER_U: u8 = 117;

pub const LOWER_N: u8 = 110;

pub const LOWER_R: u8 = 114;

pub const LOWER_T: u8 = 116;

pub const LOWER_B: u8 = 98;

pub const LOWER_F: u8 = 102;

pub const LOWER_L: u8 = 108;

pub const LOWER_A: u8 = 97;

pub const LOWER_S: u8 = 115;

pub const LOWER_J: u8 = 106;

pub const LOWER_O: u8 = 111;

} // verus!
