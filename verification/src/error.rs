use vstd::prelude::*;

verus! {

/// Every failure the registry can surface. A failing call leaves the registry
/// unchanged; the kind tells the caller why the call was rejected.
#[derive(Clone, Copy, PartialEq, Eq, Structural, Debug)]
pub enum Error {
    /// The caller is neither owner, approved spender, nor operator.
    Unauthorized,
    /// No minted token matches the given external identifier.
    UnknownToken,
    /// Hash-mode mint would reuse the identifier of a live token.
    DuplicateIdentifier,
    /// Minting would push the number of minted tokens past the supply cap.
    SupplyExceeded,
    /// The caller does not own the token in question.
    InvalidTokenOwner,
    /// Reverse-lookup bookkeeping requires the owner to register before minting.
    UnregisteredOwner,
    /// A metadata blob failed validation against its schema kind.
    InvalidMetadata,
    /// The requested metadata kind is not configured for this registry.
    MissingMetadataKind,
    /// The operation needs an ownership mode the registry was not installed with.
    InvalidOwnershipMode,
    /// The caller is not allowed to mint under the configured minting mode.
    InvalidMintingMode,
    /// The install-time configuration is rejected (zero cap or overlapping
    /// required/optional schema kind sets).
    InvalidConfiguration,
    /// A migration step was attempted before migration began.
    MigrationNotStarted,
    /// The token was already burned when a burn was attempted.
    AlreadyBurned,
    /// The token is burned, so the operation can no longer touch it.
    Burned,
    /// Minting is switched off.
    MintingPaused,
    /// The byte given for an identifier mode names no mode.
    InvalidIdentifierMode,
    /// Hash identifiers demand immutable metadata; the combination was invalid.
    InvalidMetadataMutability,
    /// Metadata is immutable for this registry, so updates are forbidden.
    ForbiddenMetadataUpdate,
    /// Migration of a collection that never issued a token is pointless.
    ZeroIssuance,
    /// Migration was attempted on an instance that already completed one.
    AlreadyMigrated,
    /// Migration may not raise the supply cap above the prior one.
    SupplyIncreaseForbidden,
}

impl Error {
    /// The stable numeric code each kind is reported under at the call boundary.
    pub open spec fn spec_code(self) -> u16 {
        match self {
            Error::Unauthorized => 1,
            Error::UnknownToken => 2,
            Error::DuplicateIdentifier => 3,
            Error::SupplyExceeded => 4,
            Error::InvalidTokenOwner => 6,
            Error::UnregisteredOwner => 8,
            Error::InvalidMetadata => 9,
            Error::MissingMetadataKind => 11,
            Error::InvalidOwnershipMode => 12,
            Error::InvalidMintingMode => 13,
            Error::InvalidConfiguration => 14,
            Error::MigrationNotStarted => 15,
            Error::AlreadyBurned => 42,
            Error::Burned => 43,
            Error::MintingPaused => 59,
            Error::InvalidIdentifierMode => 99,
            Error::InvalidMetadataMutability => 102,
            Error::ForbiddenMetadataUpdate => 104,
            Error::ZeroIssuance => 122,
            Error::AlreadyMigrated => 126,
            Error::SupplyIncreaseForbidden => 150,
        }
    }

    /// Numeric code of this error kind.
    pub fn code(&self) -> (r: u16)
        ensures
            r == self.spec_code(),
    {
        match self {
            Error::Unauthorized => 1,
            Error::UnknownToken => 2,
            Error::DuplicateIdentifier => 3,
            Error::SupplyExceeded => 4,
            Error::InvalidTokenOwner => 6,
            Error::UnregisteredOwner => 8,
            Error::InvalidMetadata => 9,
            Error::MissingMetadataKind => 11,
            Error::InvalidOwnershipMode => 12,
            Error::InvalidMintingMode => 13,
            Error::InvalidConfiguration => 14,
            Error::MigrationNotStarted => 15,
            Error::AlreadyBurned => 42,
            Error::Burned => 43,
            Error::MintingPaused => 59,
            Error::InvalidIdentifierMode => 99,
            Error::InvalidMetadataMutability => 102,
            Error::ForbiddenMetadataUpdate => 104,
            Error::ZeroIssuance => 122,
            Error::AlreadyMigrated => 126,
            Error::SupplyIncreaseForbidden => 150,
        }
    }
}

} // verus!
