//! The crate's error type.

use vstd::prelude::*;

verus! {

/// What can go wrong in the core.
#[derive(Debug, Clone, PartialEq, Eq)]
pub enum Error {
    /// A byte outside printable ASCII (and not TAB/CR) appeared in a payload.
    /// The file spec mandates ASCII; this flags a card we can't safely model.
    NonAscii { offset: usize, byte: u8 },
    /// No registered scanner profile matched a file's header (unknown
    /// `TargetModel`/`FormatVersion`).
    UnknownModel,
    /// A capability that lives in the platform/glue layer, not the I/O-light
    /// core, was invoked here. Carries a hint.
    NotInCore(&'static str),
    /// The model has no characterized format for what was asked (e.g. no
    /// `F-List` layout). Carries a hint.
    Unsupported(&'static str),
}

/// Upper-case hexadecimal digits.
pub open spec fn hex_digits() -> Seq<char> {
    seq!['0', '1', '2', '3', '4', '5', '6', '7', '8', '9', 'A', 'B', 'C', 'D', 'E', 'F']
}

/// A byte as two upper-case hexadecimal digits.
pub open spec fn hex_byte(b: u8) -> Seq<char> {
    seq![hex_digits()[(b / 16) as int], hex_digits()[(b % 16) as int]]
}

/// The description of an error.
pub open spec fn spec_message(e: Error) -> Seq<char> {
    match e {
        Error::NonAscii { offset, byte } => "non-ASCII byte 0x"@ + hex_byte(byte) + " at offset "@ + crate::text::decimal(
            offset as nat,
        ) + " (file spec requires ASCII)"@,
        Error::UnknownModel => "no scanner profile matched the file header"@,
        Error::NotInCore(hint) => "operation not available in platypus-core: "@ + hint@,
        Error::Unsupported(hint) => "unsupported: "@ + hint@,
    }
}

fn hex_digit(n: u8) -> (c: char)
    requires
        n < 16,
    ensures
        c == hex_digits()[n as int],
{
    let digits: [char; 16] = ['0', '1', '2', '3', '4', '5', '6', '7', '8', '9', 'A', 'B', 'C', 'D', 'E', 'F'];
    assert(digits@ =~= hex_digits());
    digits[n as usize]
}

impl Error {
    /// A human-readable description of the error: for a non-ASCII byte, the
    /// byte in hexadecimal and its offset.
    pub fn message(&self) -> (r: String)
        ensures
            r@ == spec_message(*self),
    {
        match self {
            Error::NonAscii { offset, byte } => {
                let mut s = "non-ASCII byte 0x".to_owned();
                s.push(hex_digit(*byte / 16));
                s.push(hex_digit(*byte % 16));
                s.append(" at offset ");
                crate::text::push_decimal(&mut s, *offset as u64);
                s.append(" (file spec requires ASCII)");
                proof {
                    assert(s@ =~= spec_message(*self));
                }
                s
            },
            Error::UnknownModel => "no scanner profile matched the file header".to_owned(),
            Error::NotInCore(hint) => {
                let mut s = "operation not available in platypus-core: ".to_owned();
                s.append(hint);
                s
            },
            Error::Unsupported(hint) => {
                let mut s = "unsupported: ".to_owned();
                s.append(hint);
                s
            },
        }
    }
}

pub type Result<T> = core::result::Result<T, Error>;

} // verus!
