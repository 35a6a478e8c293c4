//! The ways in which reading, checking or writing profiles fails.
use vstd::prelude::*;
use crate::chain_id::ChainId;

verus! {

/// Why profiles could not be read, checked or written.
#[derive(Debug)]
pub enum ProfileError {
    /// A chain id text that is not a Cairo short string (not ASCII, or over 31
    /// characters long).
    InvalidShortString(String),
    /// A chain id whose value reads back as no short string, so it cannot be written.
    UnencodableChainId(ChainId),
    /// An unknown field, a value of the wrong shape, an unknown tag or vendor, or a
    /// malformed URL.
    SchemaViolation,
    /// More than one profile, or a single profile not named `default`.
    CardinalityViolation,
    /// Two networks of the `default` profile share a chain id.
    DuplicateChainId { first: String, second: String, chain_id: ChainId },
    /// Reading or writing the backing file failed.
    IoFailure(String),
}

/// What a `ProfileError` says.
pub enum ErrorModel {
    InvalidShortString(Seq<char>),
    UnencodableChainId(Seq<u8>),
    SchemaViolation,
    CardinalityViolation,
    DuplicateChainId { first: Seq<char>, second: Seq<char>, chain_id: Seq<u8> },
    IoFailure(Seq<char>),
}

impl View for ProfileError {
    type V = ErrorModel;

    open spec fn view(&self) -> ErrorModel {
        match self {
            ProfileError::InvalidShortString(s) => ErrorModel::InvalidShortString(s@),
            ProfileError::UnencodableChainId(c) => ErrorModel::UnencodableChainId(c@),
            ProfileError::SchemaViolation => ErrorModel::SchemaViolation,
            ProfileError::CardinalityViolation => ErrorModel::CardinalityViolation,
            ProfileError::DuplicateChainId { first, second, chain_id } => ErrorModel::DuplicateChainId {
                first: first@,
                second: second@,
                chain_id: chain_id@,
            },
            ProfileError::IoFailure(s) => ErrorModel::IoFailure(s@),
        }
    }
}

} // verus!
