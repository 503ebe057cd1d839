use vstd::prelude::*;
use crate::config::{
    CollectionConfig, MetadataMutability, NFTIdentifierMode, disjoint_kinds, distinct_kinds,
    kinds_disjoint, kinds_distinct,
};
use crate::error::Error;
use crate::pagetable::PAGE_WIDTH;
use crate::principal::{Principal, TokenIdentifier};
use crate::registry::{MetadataEntry, MigrationState, Registry, TokenRecord, lemma_holds_absent, lemma_holds_at};
use crate::metadata::clone_bytes;

verus! {

/// The install-time checks that reject a configuration outright: positive
/// cap, at least one required kind, no kind repeated, no kind both required
/// and optional.
pub open spec fn spec_config_sets_ok(c: CollectionConfig) -> bool {
    &&& c.total_token_supply > 0
    &&& c.required_kinds@.len() > 0
    &&& distinct_kinds(c.required_kinds@)
    &&& distinct_kinds(c.optional_kinds@)
    &&& disjoint_kinds(c.required_kinds@, c.optional_kinds@)
}

/// Hash identifiers derive from metadata, so the metadata must be frozen.
pub open spec fn spec_config_mut_ok(c: CollectionConfig) -> bool {
    c.identifier_mode == NFTIdentifierMode::Hash ==> c.metadata_mutability
        == MetadataMutability::Immutable
}

/// First row at or after `from` whose identifier is `h`; burned rows are
/// skipped when `live_only`.
pub open spec fn spec_find_token(
    tokens: Seq<TokenRecord>,
    h: u64,
    from: int,
    live_only: bool,
) -> Option<int>
    decreases tokens.len() - from,
{
    if from < 0 || from >= tokens.len() {
        None
    } else if tokens[from].ident == h && (!live_only || !tokens[from].burned) {
        Some(from)
    } else {
        spec_find_token(tokens, h, from + 1, live_only)
    }
}

/// First metadata entry at or after `from` of the given kind.
pub open spec fn spec_md_find(md: Seq<MetadataEntry>, kind: crate::config::NFTMetadataKind, from: int) -> Option<
    int,
>
    decreases md.len() - from,
{
    if from < 0 || from >= md.len() {
        None
    } else if md[from].kind == kind {
        Some(from)
    } else {
        spec_md_find(md, kind, from + 1)
    }
}

impl Registry {
    /// The internal index an external identifier resolves to. Ordinal mode
    /// takes the ordinal as the index; hash mode finds the row carrying the
    /// hash, preferring a live row (a burned row's hash may be reused by a
    /// later live token, but the burned row is kept so a second burn is
    /// recognizable).
    pub open spec fn spec_resolve(self, ident: TokenIdentifier) -> Option<int> {
        match ident {
            TokenIdentifier::Index(i) => if self.config.identifier_mode
                == NFTIdentifierMode::Ordinal && (i as int) < self.tokens@.len() {
                Some(i as int)
            } else {
                None
            },
            TokenIdentifier::Hash(h) => if self.config.identifier_mode == NFTIdentifierMode::Hash {
                match spec_find_token(self.tokens@, h, 0, true) {
                    Some(t) => Some(t),
                    None => spec_find_token(self.tokens@, h, 0, false),
                }
            } else {
                None
            },
        }
    }

    /// Validates a configuration and brings up an empty registry for it.
    pub fn install(config: CollectionConfig) -> (r: Result<Registry, Error>)
        ensures
            !spec_config_sets_ok(config) ==> r == Err::<Registry, Error>(
                Error::InvalidConfiguration,
            ),
            spec_config_sets_ok(config) && !spec_config_mut_ok(config) ==> r == Err::<
                Registry,
                Error,
            >(Error::InvalidMetadataMutability),
            spec_config_sets_ok(config) && spec_config_mut_ok(config) ==> (match r {
                Ok(reg) => {
                    &&& reg.wf()
                    &&& reg.config == config
                    &&& reg.tokens@.len() == 0
                    &&& reg.owners@.len() == 0
                    &&& reg.operators@.len() == 0
                    &&& reg.migration == MigrationState::NotStarted
                },
                Err(_) => false,
            }),
    {
        if config.total_token_supply == 0 || config.required_kinds.len() == 0 {
            return Err(Error::InvalidConfiguration);
        }
        if !kinds_distinct(&config.required_kinds) || !kinds_distinct(&config.optional_kinds) {
            return Err(Error::InvalidConfiguration);
        }
        if !kinds_disjoint(&config.required_kinds, &config.optional_kinds) {
            return Err(Error::InvalidConfiguration);
        }
        if matches!(config.identifier_mode, NFTIdentifierMode::Hash) && !matches!(
            config.metadata_mutability,
            MetadataMutability::Immutable,
        ) {
            return Err(Error::InvalidMetadataMutability);
        }
        let reg = Registry {
            config,
            tokens: Vec::new(),
            owners: Vec::new(),
            operators: Vec::new(),
            migration: MigrationState::NotStarted,
        };
        Ok(reg)
    }

    /// Resolves an external identifier to the internal index.
    pub fn resolve(&self, ident: &TokenIdentifier) -> (r: Option<usize>)
        requires
            self.wf(),
        ensures
            match r {
                Some(t) => self.spec_resolve(*ident) == Some(t as int) && t < self.tokens@.len(),
                None => self.spec_resolve(*ident) is None,
            },
    {
        match ident {
            TokenIdentifier::Index(i) => {
                if !matches!(self.config.identifier_mode, NFTIdentifierMode::Ordinal) {
                    return None;
                }
                let n = self.tokens.len();
                if *i < n as u64 {
                    Some(*i as usize)
                } else {
                    None
                }
            },
            TokenIdentifier::Hash(h) => {
                if !matches!(self.config.identifier_mode, NFTIdentifierMode::Hash) {
                    return None;
                }
                match self.find_by_hash(*h, true) {
                    Some(t) => Some(t),
                    None => self.find_by_hash(*h, false),
                }
            },
        }
    }

    /// Scans the rows for the first carrying identifier `h`.
    fn find_by_hash(&self, h: u64, live_only: bool) -> (r: Option<usize>)
        ensures
            match r {
                Some(t) => spec_find_token(self.tokens@, h, 0, live_only) == Some(t as int) && t
                    < self.tokens@.len(),
                None => spec_find_token(self.tokens@, h, 0, live_only) is None,
            },
    {
        let mut i: usize = 0;
        while i < self.tokens.len()
            invariant
                i <= self.tokens@.len(),
                spec_find_token(self.tokens@, h, 0, live_only) == spec_find_token(
                    self.tokens@,
                    h,
                    i as int,
                    live_only,
                ),
            decreases self.tokens@.len() - i,
        {
            if self.tokens[i].ident == h && (!live_only || !self.tokens[i].burned) {
                return Some(i);
            }
            i += 1;
        }
        None
    }

    /// The current owner of the token an identifier names; burned tokens
    /// still report the owner their row retains.
    pub fn owner_of(&self, ident: &TokenIdentifier) -> (r: Result<Principal, Error>)
        requires
            self.wf(),
        ensures
            match self.spec_resolve(*ident) {
                Some(t) => r == Ok::<Principal, Error>(self.tokens@[t].owner),
                None => r == Err::<Principal, Error>(Error::UnknownToken),
            },
    {
        match self.resolve(ident) {
            Some(t) => Ok(self.tokens[t].owner),
            None => Err(Error::UnknownToken),
        }
    }

    /// The issuer recorded for a token at mint.
    pub fn issuer_of(&self, ident: &TokenIdentifier) -> (r: Result<Principal, Error>)
        requires
            self.wf(),
        ensures
            match self.spec_resolve(*ident) {
                Some(t) => r == Ok::<Principal, Error>(self.tokens@[t].issuer),
                None => r == Err::<Principal, Error>(Error::UnknownToken),
            },
    {
        match self.resolve(ident) {
            Some(t) => Ok(self.tokens[t].issuer),
            None => Err(Error::UnknownToken),
        }
    }

    /// The single approved spender currently recorded for a token.
    pub fn get_approved(&self, ident: &TokenIdentifier) -> (r: Result<Option<Principal>, Error>)
        requires
            self.wf(),
        ensures
            match self.spec_resolve(*ident) {
                Some(t) => r == Ok::<Option<Principal>, Error>(self.tokens@[t].approved),
                None => r == Err::<Option<Principal>, Error>(Error::UnknownToken),
            },
    {
        match self.resolve(ident) {
            Some(t) => Ok(self.tokens[t].approved),
            None => Err(Error::UnknownToken),
        }
    }

    /// Reports whether the row an identifier names is burned.
    pub fn is_burned(&self, ident: &TokenIdentifier) -> (r: Result<bool, Error>)
        requires
            self.wf(),
        ensures
            match self.spec_resolve(*ident) {
                Some(t) => r == Ok::<bool, Error>(self.tokens@[t].burned),
                None => r == Err::<bool, Error>(Error::UnknownToken),
            },
    {
        match self.resolve(ident) {
            Some(t) => Ok(self.tokens[t].burned),
            None => Err(Error::UnknownToken),
        }
    }

    /// The stored metadata blob of the given kind for a token.
    pub fn metadata(&self, ident: &TokenIdentifier, kind: crate::config::NFTMetadataKind) -> (r:
        Result<Vec<u8>, Error>)
        requires
            self.wf(),
        ensures
            match self.spec_resolve(*ident) {
                Some(t) => match spec_md_find(self.tokens@[t].metadata@, kind, 0) {
                    Some(m) => (match r {
                        Ok(b) => b@ == self.tokens@[t].metadata@[m].blob@,
                        Err(_) => false,
                    }),
                    None => r == Err::<Vec<u8>, Error>(Error::MissingMetadataKind),
                },
                None => r == Err::<Vec<u8>, Error>(Error::UnknownToken),
            },
    {
        let t = match self.resolve(ident) {
            Some(t) => t,
            None => {
                return Err(Error::UnknownToken);
            },
        };
        let md = &self.tokens[t].metadata;
        let mut i: usize = 0;
        while i < md.len()
            invariant
                i <= md@.len(),
                t < self.tokens@.len(),
                self.spec_resolve(*ident) == Some(t as int),
                md@ == self.tokens@[t as int].metadata@,
                spec_md_find(md@, kind, 0) == spec_md_find(md@, kind, i as int),
            decreases md@.len() - i,
        {
            if md[i].kind == kind {
                proof {
                    assert(spec_md_find(md@, kind, i as int) == Some(i as int));
                }
                return Ok(clone_bytes(&md[i].blob));
            }
            i += 1;
        }
        proof {
            assert(spec_md_find(md@, kind, md@.len() as int) is None);
        }
        Err(Error::MissingMetadataKind)
    }

    /// Every index `owner` currently holds, ascending. Restartable and
    /// finite; the page bound is a machine limit, not a policy.
    pub fn owner_tokens(&self, owner: &Principal) -> (r: Vec<usize>)
        requires
            self.wf(),
            self.tokens@.len() + PAGE_WIDTH <= usize::MAX,
        ensures
            forall|k1: int, k2: int| 0 <= k1 < k2 < r@.len() ==> r@[k1] < r@[k2],
            forall|j: usize| r@.contains(j) == self.spec_holds(*owner, j as int),
    {
        match self.find_owner(owner) {
            Some(i) => {
                proof {
                    let tb = self.owners@[i as int].table;
                    crate::pagetable::lemma_page_count_nonneg(tb);
                    assert(tb.spec_page_count() * PAGE_WIDTH <= ((self.tokens@.len() as int) / (
                    PAGE_WIDTH as int) + 1) * PAGE_WIDTH) by (nonlinear_arith)
                        requires
                            tb.spec_page_count() <= (self.tokens@.len() as int) / (
                            PAGE_WIDTH as int) + 1,
                            PAGE_WIDTH > 0,
                            tb.spec_page_count() >= 0,
                    ;
                    assert(((self.tokens@.len() as int) / (PAGE_WIDTH as int) + 1) * (
                    PAGE_WIDTH as int) <= self.tokens@.len() + PAGE_WIDTH) by (nonlinear_arith)
                        requires
                            PAGE_WIDTH > 0,
                            self.tokens@.len() >= 0,
                    ;
                }
                let v = self.owners[i].table.enumerate();
                proof {
                    assert forall|j: usize|
                        v@.contains(j) == self.spec_holds(*owner, j as int) by {
                        lemma_holds_at(self.owners@, i as int, *owner, j as int);
                    }
                }
                v
            },
            None => {
                let v: Vec<usize> = Vec::new();
                proof {
                    assert forall|j: usize|
                        v@.contains(j) == self.spec_holds(*owner, j as int) by {
                        lemma_holds_absent(self.owners@, *owner, j as int);
                        assert(!v@.contains(j));
                    }
                }
                v
            },
        }
    }
}

} // verus!
