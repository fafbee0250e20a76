use vstd::prelude::*;
use crate::text::{decimal_chars, hex_digits, push_decimal, push_hex};

verus! {

/// Every way in which decoding a bundle, a stream or a script can fail.
#[derive(Debug, Clone, PartialEq, Eq)]
pub enum VoltError {
    BadMagic,
    UnsupportedVersion(u8),
    Truncated { needed: usize, remaining: usize, context: &'static str },
    InvalidSection(u8),
    InvalidValue(&'static str),
    InvalidUtf8,
    Checksum { expected: u32, actual: u32 },
    LimitExceeded(&'static str),
    Decode(&'static str),
    Script(&'static str),
}

/// The result type of every fallible operation of the library.
pub type Result<T> = core::result::Result<T, VoltError>;

/// `0x` and eight hexadecimal digits.
pub open spec fn hex_word(v: u32) -> Seq<char> {
    "0x"@ + hex_digits(v, 8)
}

/// The human-readable text of an error.
pub open spec fn error_text(e: VoltError) -> Seq<char> {
    match e {
        VoltError::BadMagic => "bad VoltTrace magic"@,
        VoltError::UnsupportedVersion(v) => "unsupported VoltTrace version "@ + decimal_chars(v as nat),
        VoltError::Truncated { needed, remaining, context } => "truncated "@ + context@ + ": needed "@
            + decimal_chars(needed as nat) + ", remaining "@ + decimal_chars(remaining as nat),
        VoltError::InvalidSection(s) => "invalid section type "@ + decimal_chars(s as nat),
        VoltError::InvalidValue(v) => "invalid value: "@ + v@,
        VoltError::InvalidUtf8 => "invalid utf-8"@,
        VoltError::Checksum { expected, actual } => "checksum mismatch: expected "@ + hex_word(expected)
            + ", actual "@ + hex_word(actual),
        VoltError::LimitExceeded(v) => "limit exceeded: "@ + v@,
        VoltError::Decode(v) => "decode error: "@ + v@,
        VoltError::Script(v) => "script error: "@ + v@,
    }
}

impl VoltError {
    /// The text of the error, as its display form reads.
    pub fn message(&self) -> (r: String)
        ensures
            r@ == error_text(*self),
    {
        match self {
            VoltError::BadMagic => String::from_str("bad VoltTrace magic"),
            VoltError::UnsupportedVersion(v) => {
                let mut s = String::from_str("unsupported VoltTrace version ");
                push_decimal(&mut s, *v as u64);
                s
            },
            VoltError::Truncated { needed, remaining, context } => {
                let mut s = String::from_str("truncated ");
                s.append(context);
                s.append(": needed ");
                push_decimal(&mut s, *needed as u64);
                s.append(", remaining ");
                push_decimal(&mut s, *remaining as u64);
                s
            },
            VoltError::InvalidSection(v) => {
                let mut s = String::from_str("invalid section type ");
                push_decimal(&mut s, *v as u64);
                s
            },
            VoltError::InvalidValue(v) => {
                let mut s = String::from_str("invalid value: ");
                s.append(v);
                s
            },
            VoltError::InvalidUtf8 => String::from_str("invalid utf-8"),
            VoltError::Checksum { expected, actual } => {
                let mut s = String::from_str("checksum mismatch: expected ");
                s.append("0x");
                push_hex(&mut s, *expected, 8);
                s.append(", actual ");
                s.append("0x");
                push_hex(&mut s, *actual, 8);
                assert(s@ =~= error_text(*self));
                s
            },
            VoltError::LimitExceeded(v) => {
                let mut s = String::from_str("limit exceeded: ");
                s.append(v);
                s
            },
            VoltError::Decode(v) => {
                let mut s = String::from_str("decode error: ");
                s.append(v);
                s
            },
            VoltError::Script(v) => {
                let mut s = String::from_str("script error: ");
                s.append(v);
                s
            },
        }
    }
}

} // verus!
