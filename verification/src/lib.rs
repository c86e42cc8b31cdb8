use vstd::prelude::*;

pub mod apply;
pub mod bin_file;
pub mod buf;
pub mod checksum_fix;
pub mod civil;
pub mod command;
pub mod error;
pub mod format;
pub mod hash;
pub mod header;
pub mod info;
pub mod library;
pub mod text;

pub use apply::{ApplyError, ApplyOptions, ApplyOutcome, HashAlgo, HashCheckKind, HashSpec};
pub use checksum_fix::ChecksumFamily;
pub use error::{PatchError, Result};
pub use format::FormatKind;
pub use header::HeaderKind;

verus! {

/// Upper bound on a declared output ROM size, in bytes. Any header that asks
/// for a larger allocation is rejected with `PatchError::OutputTooLarge`.
pub const MAX_PATCH_OUTPUT_SIZE: usize = 268435456;

/// `std::path::PathBuf`, carried through unchanged.
#[verifier::external_type_specification]
#[verifier::external_body]
pub struct ExPathBuf(std::path::PathBuf);

} // verus!
