use vstd::prelude::*;

use crate::text::{dec_of, hex_of, hex_u32, push_dec, push_hex, push_hex_u32, push_str};

verus! {

/// Every way in which reading or applying a patch can fail.
#[derive(Debug, Clone, PartialEq, Eq)]
pub enum PatchError {
    Truncated,
    InvalidMagic,
    InvalidEncoding,
    InputSizeMismatch { expected: u64, actual: u64 },
    InputHashMismatch { expected: u32, actual: u32 },
    OutputHashMismatch { expected: u32, actual: u32 },
    PatchHashMismatch { expected: u32, actual: u32 },
    InputMd5Mismatch { expected: [u8; 16], actual: [u8; 16] },
    OutputMd5Mismatch { expected: [u8; 16], actual: [u8; 16] },
    OffsetOutOfRange { offset: u64, max: u64 },
    OutputTooLarge { declared: u64, max: u64 },
    NoMatchingFile,
    UnsupportedFeature(&'static str),
}

/// Result type used by every parser of the library.
pub type Result<T> = core::result::Result<T, PatchError>;

/// A byte-vector result seen through the vector's contents.
pub open spec fn bytes_result(r: Result<Vec<u8>>) -> Result<Seq<u8>> {
    match r {
        Ok(v) => Ok(v@),
        Err(e) => Err(e),
    }
}

/// `0x` followed by eight hex digits (`{:#010x}`).
pub open spec fn hex32_text(v: u32) -> Seq<char> {
    "0x"@ + hex_u32(v)
}

/// The text of each error, as it is shown to a user.
pub open spec fn patch_error_text(e: PatchError) -> Seq<char> {
    match e {
        PatchError::Truncated => "patch is truncated"@,
        PatchError::InvalidMagic => "invalid patch magic bytes"@,
        PatchError::InvalidEncoding => "invalid patch encoding"@,
        PatchError::InputSizeMismatch { expected, actual } => "input ROM size mismatch: expected "@
            + dec_of(expected as nat) + ", got "@ + dec_of(actual as nat),
        PatchError::InputHashMismatch { expected, actual } => "input ROM hash mismatch: expected "@
            + hex32_text(expected) + ", got "@ + hex32_text(actual),
        PatchError::OutputHashMismatch { expected, actual } =>
            "output ROM hash mismatch: expected "@ + hex32_text(expected) + ", got "@ + hex32_text(
            actual,
        ),
        PatchError::PatchHashMismatch { expected, actual } =>
            "patch file hash mismatch: expected "@ + hex32_text(expected) + ", got "@ + hex32_text(
            actual,
        ),
        PatchError::InputMd5Mismatch { expected, actual } => "input ROM MD5 mismatch: expected "@
            + hex_of(expected@) + ", got "@ + hex_of(actual@),
        PatchError::OutputMd5Mismatch { expected, actual } => "output ROM MD5 mismatch: expected "@
            + hex_of(expected@) + ", got "@ + hex_of(actual@),
        PatchError::OffsetOutOfRange { offset, max } => "patch offset "@ + dec_of(offset as nat)
            + " exceeds limit "@ + dec_of(max as nat),
        PatchError::OutputTooLarge { declared, max } => "declared output size "@ + dec_of(
            declared as nat,
        ) + " exceeds limit "@ + dec_of(max as nat),
        PatchError::NoMatchingFile => "no file in the patch matches the input ROM"@,
        PatchError::UnsupportedFeature(what) => "unsupported patch feature: "@ + what@,
    }
}

fn push_hex32(s: &mut String, v: u32)
    ensures
        final(s)@ == old(s)@ + hex32_text(v),
{
    push_str(s, "0x");
    push_hex_u32(s, v);
}

impl PatchError {
    /// The message shown to a user for this error.
    pub fn message(&self) -> (r: String)
        ensures
            r@ == patch_error_text(*self),
    {
        let mut s = String::new();
        match self {
            PatchError::Truncated => push_str(&mut s, "patch is truncated"),
            PatchError::InvalidMagic => push_str(&mut s, "invalid patch magic bytes"),
            PatchError::InvalidEncoding => push_str(&mut s, "invalid patch encoding"),
            PatchError::InputSizeMismatch { expected, actual } => {
                push_str(&mut s, "input ROM size mismatch: expected ");
                push_dec(&mut s, *expected);
                push_str(&mut s, ", got ");
                push_dec(&mut s, *actual);
            },
            PatchError::InputHashMismatch { expected, actual } => {
                push_str(&mut s, "input ROM hash mismatch: expected ");
                push_hex32(&mut s, *expected);
                push_str(&mut s, ", got ");
                push_hex32(&mut s, *actual);
            },
            PatchError::OutputHashMismatch { expected, actual } => {
                push_str(&mut s, "output ROM hash mismatch: expected ");
                push_hex32(&mut s, *expected);
                push_str(&mut s, ", got ");
                push_hex32(&mut s, *actual);
            },
            PatchError::PatchHashMismatch { expected, actual } => {
                push_str(&mut s, "patch file hash mismatch: expected ");
                push_hex32(&mut s, *expected);
                push_str(&mut s, ", got ");
                push_hex32(&mut s, *actual);
            },
            PatchError::InputMd5Mismatch { expected, actual } => {
                push_str(&mut s, "input ROM MD5 mismatch: expected ");
                push_hex(&mut s, expected);
                push_str(&mut s, ", got ");
                push_hex(&mut s, actual);
            },
            PatchError::OutputMd5Mismatch { expected, actual } => {
                push_str(&mut s, "output ROM MD5 mismatch: expected ");
                push_hex(&mut s, expected);
                push_str(&mut s, ", got ");
                push_hex(&mut s, actual);
            },
            PatchError::OffsetOutOfRange { offset, max } => {
                push_str(&mut s, "patch offset ");
                push_dec(&mut s, *offset);
                push_str(&mut s, " exceeds limit ");
                push_dec(&mut s, *max);
            },
            PatchError::OutputTooLarge { declared, max } => {
                push_str(&mut s, "declared output size ");
                push_dec(&mut s, *declared);
                push_str(&mut s, " exceeds limit ");
                push_dec(&mut s, *max);
            },
            PatchError::NoMatchingFile => push_str(
                &mut s,
                "no file in the patch matches the input ROM",
            ),
            PatchError::UnsupportedFeature(what) => {
                push_str(&mut s, "unsupported patch feature: ");
                push_str(&mut s, what);
            },
        }
        s
    }
}


/// `std::io::Error`, carried through unchanged.
#[verifier::external_type_specification]
#[verifier::external_body]
pub struct ExIoError(std::io::Error);

/// The text of an I/O error: calls `ToString::to_string` on
/// `std::io::Error`. Nothing is claimed of the text, which comes from the
/// operating system.
#[verifier::external_body]
pub(crate) fn io_error_text(e: &std::io::Error) -> String {
    e.to_string()
}

} // verus!
