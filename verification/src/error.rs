//! Decoding errors and the exact text of their messages.

use vstd::prelude::*;
use crate::text::{decimal, push_decimal, push_str};

verus! {

/// Why a message could not be decoded.
#[derive(Clone, Debug)]
pub enum DecodeError {
    /// The input could not be read.
    Io { path: String, message: String },
    /// The bytes break the GRIB2 layout.
    Invalid(String),
    /// A section uses a template that this decoder does not read.
    UnsupportedTemplate { section: u8, template: u16 },
    /// A section that the data needs did not come before it.
    MissingSection(u8),
    /// The run-length packed data is malformed.
    RunLength(String),
    /// The tar archive could not be read.
    Tar(String),
}

/// A decoding error as plain values.
pub enum DecodeFault {
    Io { path: Seq<char>, message: Seq<char> },
    Invalid(Seq<char>),
    UnsupportedTemplate { section: u8, template: u16 },
    MissingSection(u8),
    RunLength(Seq<char>),
    Tar(Seq<char>),
}

impl View for DecodeError {
    type V = DecodeFault;

    open spec fn view(&self) -> DecodeFault {
        match self {
            DecodeError::Io { path, message } => DecodeFault::Io { path: path@, message: message@ },
            DecodeError::Invalid(m) => DecodeFault::Invalid(m@),
            DecodeError::UnsupportedTemplate { section, template } => DecodeFault::UnsupportedTemplate {
                section: *section,
                template: *template,
            },
            DecodeError::MissingSection(n) => DecodeFault::MissingSection(*n),
            DecodeError::RunLength(m) => DecodeFault::RunLength(m@),
            DecodeError::Tar(m) => DecodeFault::Tar(m@),
        }
    }
}

/// A decoding result as plain values.
pub open spec fn seq_result<T>(r: Result<Vec<T>, DecodeError>) -> Result<Seq<T>, DecodeFault> {
    match r {
        Ok(v) => Ok(v@),
        Err(e) => Err(e@),
    }
}

/// `text` followed by the decimal form of `n`.
pub open spec fn with_number(text: Seq<char>, n: nat) -> Seq<char> {
    text + decimal(n)
}

/// A string made of a literal and a number.
pub fn text_number(text: &str, n: u64) -> (s: String)
    ensures
        s@ == with_number(text@, n as nat),
{
    let mut s = String::new();
    push_str(&mut s, text);
    push_decimal(&mut s, n);
    s
}

/// A string made of a literal, a number, a literal and a number.
pub fn text_number2(a: &str, n: u64, b: &str, m: u64) -> (s: String)
    ensures
        s@ == with_number(a@, n as nat) + with_number(b@, m as nat),
{
    let mut s = String::new();
    push_str(&mut s, a);
    push_decimal(&mut s, n);
    push_str(&mut s, b);
    push_decimal(&mut s, m);
    assert(s@ =~= with_number(a@, n as nat) + with_number(b@, m as nat));
    s
}

/// A string made of three literals and numbers, alternating.
pub fn text_number3(a: &str, n: u64, b: &str, m: u64, c: &str, k: u64) -> (s: String)
    ensures
        s@ == with_number(a@, n as nat) + with_number(b@, m as nat) + with_number(c@, k as nat),
{
    let mut s = String::new();
    push_str(&mut s, a);
    push_decimal(&mut s, n);
    push_str(&mut s, b);
    push_decimal(&mut s, m);
    push_str(&mut s, c);
    push_decimal(&mut s, k);
    assert(s@ =~= with_number(a@, n as nat) + with_number(b@, m as nat) + with_number(c@, k as nat));
    s
}

/// A string holding a literal.
pub fn text(t: &str) -> (s: String)
    ensures
        s@ == t@,
{
    String::from_str(t)
}

} // verus!
