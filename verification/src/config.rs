use vstd::prelude::*;
use crate::error::Error;
use crate::principal::Principal;

verus! {

/// How callers address a token from outside: by its dense ordinal, or by a
/// content hash of the metadata supplied at mint. Fixed for the registry's
/// lifetime.
#[derive(Clone, Copy, PartialEq, Eq, Structural, Debug)]
pub enum NFTIdentifierMode {
    Ordinal,
    Hash,
}

impl NFTIdentifierMode {
    /// Decodes the wire byte for an identifier mode: 0 is ordinal, 1 is hash,
    /// everything else is rejected.
    pub fn try_from_u8(value: u8) -> (r: Result<NFTIdentifierMode, Error>)
        ensures
            value == 0 ==> r == Ok::<NFTIdentifierMode, Error>(NFTIdentifierMode::Ordinal),
            value == 1 ==> r == Ok::<NFTIdentifierMode, Error>(NFTIdentifierMode::Hash),
            value > 1 ==> r == Err::<NFTIdentifierMode, Error>(Error::InvalidIdentifierMode),
    {
        match value {
            0 => Ok(NFTIdentifierMode::Ordinal),
            1 => Ok(NFTIdentifierMode::Hash),
            _ => Err(Error::InvalidIdentifierMode),
        }
    }
}

/// Whether metadata may be rewritten after mint.
#[derive(Clone, Copy, PartialEq, Eq, Structural, Debug)]
pub enum MetadataMutability {
    Immutable,
    Mutable,
}

/// What may happen to a token's owner after mint.
#[derive(Clone, Copy, PartialEq, Eq, Structural, Debug)]
pub enum OwnershipMode {
    /// Tokens stay with the minter forever.
    Minter,
    /// Tokens are assigned once at mint and then frozen.
    Assigned,
    /// Tokens move freely under the authorization rules.
    Transferable,
}

/// Who may mint.
#[derive(Clone, Copy, PartialEq, Eq, Structural, Debug)]
pub enum MintingMode {
    /// Only the installing principal.
    Installer,
    /// Anyone.
    Public,
    /// Only principals on the install-time access list.
    Acl,
}

/// How much owner-to-token enumeration bookkeeping the registry maintains.
#[derive(Clone, Copy, PartialEq, Eq, Structural, Debug)]
pub enum OwnerReverseLookupMode {
    /// No reverse-lookup obligations; owners are registered on first touch.
    NoLookUp,
    /// Bookkeeping is kept on transfers; mint registers owners implicitly.
    TransfersOnly,
    /// Full bookkeeping; owners must register before they can receive a mint.
    Complete,
}

/// The closed set of metadata schema kinds a registry can require or accept.
#[derive(Clone, Copy, PartialEq, Eq, Structural, Debug)]
pub enum NFTMetadataKind {
    /// The canonical collection schema: name, token_uri and checksum fields.
    CEP78,
    /// The conventional token schema: name, symbol and token_uri fields.
    NFT721,
    /// No structural validation; the blob passes through untouched.
    Raw,
    /// Well-formedness only: parsable fields with distinct keys.
    CustomValidated,
}

/// Write-once collection configuration, chosen at install and selectively
/// mutable only through migration.
#[derive(Debug)]
pub struct CollectionConfig {
    /// Hard cap on the number of tokens ever minted.
    pub total_token_supply: u64,
    pub identifier_mode: NFTIdentifierMode,
    pub metadata_mutability: MetadataMutability,
    pub ownership_mode: OwnershipMode,
    pub minting_mode: MintingMode,
    pub reverse_lookup_mode: OwnerReverseLookupMode,
    /// Schema kinds every mint must supply; all must validate.
    pub required_kinds: Vec<NFTMetadataKind>,
    /// Schema kinds a mint may supply; validated only when present.
    pub optional_kinds: Vec<NFTMetadataKind>,
    /// Switch that pauses and resumes minting.
    pub allow_minting: bool,
    /// The principal that installed the registry.
    pub installer: Principal,
    /// Principals allowed to mint under `MintingMode::Acl`.
    pub minting_acl: Vec<Principal>,
}

impl CollectionConfig {
    /// A configuration the registry accepts at install: a positive supply cap,
    /// at least one required schema kind, no kind listed twice, no kind both
    /// required and optional, and hash identifiers only with immutable
    /// metadata.
    pub open spec fn spec_valid(self) -> bool {
        &&& self.total_token_supply > 0
        &&& self.required_kinds.len() > 0
        &&& distinct_kinds(self.required_kinds@)
        &&& distinct_kinds(self.optional_kinds@)
        &&& disjoint_kinds(self.required_kinds@, self.optional_kinds@)
        &&& (self.identifier_mode == NFTIdentifierMode::Hash
            ==> self.metadata_mutability == MetadataMutability::Immutable)
    }

    /// True when `kind` is accepted at all, required or optional.
    pub open spec fn spec_accepts_kind(self, kind: NFTMetadataKind) -> bool {
        self.required_kinds@.contains(kind) || self.optional_kinds@.contains(kind)
    }

    /// Decides whether `kind` is accepted by this configuration.
    pub fn accepts_kind(&self, kind: NFTMetadataKind) -> (r: bool)
        ensures
            r == self.spec_accepts_kind(kind),
    {
        kinds_contain(&self.required_kinds, kind) || kinds_contain(&self.optional_kinds, kind)
    }
}

/// No schema kind occurs twice in the sequence.
pub open spec fn distinct_kinds(s: Seq<NFTMetadataKind>) -> bool {
    forall|i: int, j: int| 0 <= i < j < s.len() ==> s[i] != s[j]
}

/// No schema kind occurs in both sequences.
pub open spec fn disjoint_kinds(a: Seq<NFTMetadataKind>, b: Seq<NFTMetadataKind>) -> bool {
    forall|i: int, j: int| 0 <= i < a.len() && 0 <= j < b.len() ==> a[i] != b[j]
}

/// Decides membership of a kind in a kind list.
pub fn kinds_contain(s: &Vec<NFTMetadataKind>, kind: NFTMetadataKind) -> (r: bool)
    ensures
        r == s@.contains(kind),
{
    let mut i: usize = 0;
    while i < s.len()
        invariant
            i <= s.len(),
            forall|k: int| 0 <= k < i ==> s@[k] != kind,
        decreases s.len() - i,
    {
        if s[i] == kind {
            assert(s@.contains(kind));
            return true;
        }
        i += 1;
    }
    assert(!s@.contains(kind));
    false
}

/// Decides whether a kind list is free of repeats.
pub fn kinds_distinct(s: &Vec<NFTMetadataKind>) -> (r: bool)
    ensures
        r == distinct_kinds(s@),
{
    let mut i: usize = 0;
    while i < s.len()
        invariant
            i <= s.len(),
            forall|p: int, q: int| 0 <= p < q < s.len() && p < i ==> s@[p] != s@[q],
        decreases s.len() - i,
    {
        let mut j: usize = i + 1;
        while j < s.len()
            invariant
                i < s.len(),
                i < j <= s.len(),
                forall|q: int| i < q < j ==> s@[i as int] != s@[q],
            decreases s.len() - j,
        {
            if s[i] == s[j] {
                return false;
            }
            j += 1;
        }
        i += 1;
    }
    true
}

/// Decides whether two kind lists share no element.
pub fn kinds_disjoint(a: &Vec<NFTMetadataKind>, b: &Vec<NFTMetadataKind>) -> (r: bool)
    ensures
        r == disjoint_kinds(a@, b@),
{
    let mut i: usize = 0;
    while i < a.len()
        invariant
            i <= a.len(),
            forall|p: int, q: int| 0 <= p < i && 0 <= q < b.len() ==> a@[p] != b@[q],
        decreases a.len() - i,
    {
        if kinds_contain(b, a[i]) {
            let ghost q = choose|q: int| 0 <= q < b@.len() && b@[q] == a@[i as int];
            return false;
        }
        i += 1;
    }
    true
}

} // verus!
