use vstd::prelude::*;
use crate::config::{CollectionConfig, MintingMode, NFTIdentifierMode, OwnerReverseLookupMode};
use crate::error::Error;
use crate::hashing::{content_hash, spec_content_hash};
use crate::metadata::{spec_valid_metadata, validate};
use crate::pagetable::PAGE_WIDTH;
use crate::principal::Principal;
use crate::registry::{
    Event, MetadataEntry, OwnerEntry, Registry, TokenRecord, lemma_balance_at, lemma_balance_update,
    lemma_holds_at, lemma_holds_update, lemma_live_le_len, lemma_live_push, lemma_sum_ge,
    lemma_sum_update, spec_md_view, spec_sum_counts, spec_live_count,
};
use crate::registry_read::spec_md_find;
use vstd::arithmetic::div_mod::lemma_div_is_ordered;

verus! {

/// Whether `caller` may mint under the configured minting mode.
pub open spec fn spec_minter_ok(c: CollectionConfig, caller: Principal) -> bool {
    match c.minting_mode {
        MintingMode::Public => true,
        MintingMode::Installer => caller == c.installer,
        MintingMode::Acl => c.minting_acl@.contains(caller),
    }
}

/// No schema kind supplied twice.
pub open spec fn spec_md_kinds_distinct(md: Seq<MetadataEntry>) -> bool {
    forall|a: int, b: int| 0 <= a < b < md.len() ==> md[a].kind != md[b].kind
}

/// Each supplied blob belongs to an accepted kind and validates against it.
pub open spec fn spec_md_ok(c: CollectionConfig, md: Seq<MetadataEntry>) -> bool {
    &&& spec_md_kinds_distinct(md)
    &&& forall|a: int| 0 <= a < md.len() ==> c.spec_accepts_kind((#[trigger] md[a]).kind)
    &&& forall|a: int|
        0 <= a < md.len() ==> spec_valid_metadata((#[trigger] md[a]).kind, md[a].blob@)
}

/// Every required kind was supplied.
pub open spec fn spec_md_complete(c: CollectionConfig, md: Seq<MetadataEntry>) -> bool {
    forall|k: int|
        0 <= k < c.required_kinds@.len() ==> spec_md_find(md, c.required_kinds@[k], 0) is Some
}

/// The blob supplied for the first required kind; the content hash is taken
/// over it in hash identifier mode.
pub open spec fn spec_md_primary(c: CollectionConfig, md: Seq<MetadataEntry>) -> Seq<u8> {
    match spec_md_find(md, c.required_kinds@[0], 0) {
        Some(m) => md[m].blob@,
        None => Seq::empty(),
    }
}

/// The external identifier the next mint would assign.
pub open spec fn spec_mint_ident(s: Registry, md: Seq<MetadataEntry>) -> u64 {
    if s.config.identifier_mode == NFTIdentifierMode::Ordinal {
        s.tokens@.len() as u64
    } else {
        spec_content_hash(spec_md_primary(s.config, md))
    }
}

/// Some live row already carries identifier `h`.
pub open spec fn spec_dup_ident(s: Registry, h: u64) -> bool {
    exists|t: int| 0 <= t < s.tokens@.len() && !s.tokens@[t].burned && s.tokens@[t].ident == h
}

/// Why a mint call fails, or `None` when it succeeds; the checks run in this
/// order.
pub open spec fn spec_mint_err(
    s: Registry,
    caller: Principal,
    owner: Principal,
    md: Seq<MetadataEntry>,
) -> Option<Error> {
    if !s.config.allow_minting {
        Some(Error::MintingPaused)
    } else if !spec_minter_ok(s.config, caller) {
        Some(Error::InvalidMintingMode)
    } else if s.tokens@.len() >= s.config.total_token_supply {
        Some(Error::SupplyExceeded)
    } else if s.config.reverse_lookup_mode == OwnerReverseLookupMode::Complete
        && !s.spec_registered(owner) {
        Some(Error::UnregisteredOwner)
    } else if !spec_md_ok(s.config, md) {
        Some(Error::InvalidMetadata)
    } else if !spec_md_complete(s.config, md) {
        Some(Error::MissingMetadataKind)
    } else if s.config.identifier_mode == NFTIdentifierMode::Hash && spec_dup_ident(
        s,
        spec_mint_ident(s, md),
    ) {
        Some(Error::DuplicateIdentifier)
    } else {
        None
    }
}

/// Decides membership of a principal in a principal list.
pub fn principals_contain(s: &Vec<Principal>, p: &Principal) -> (r: bool)
    ensures
        r == s@.contains(*p),
{
    let mut i: usize = 0;
    while i < s.len()
        invariant
            i <= s.len(),
            forall|k: int| 0 <= k < i ==> s@[k] != *p,
        decreases s.len() - i,
    {
        if s[i] == *p {
            assert(s@.contains(*p));
            return true;
        }
        i += 1;
    }
    assert(!s@.contains(*p));
    false
}

/// First entry of the given kind in a metadata list.
pub fn find_md_kind(md: &Vec<MetadataEntry>, kind: crate::config::NFTMetadataKind) -> (r: Option<
    usize,
>)
    ensures
        match r {
            Some(m) => spec_md_find(md@, kind, 0) == Some(m as int) && m < md@.len()
                && md@[m as int].kind == kind,
            None => spec_md_find(md@, kind, 0) is None,
        },
{
    let mut m: usize = 0;
    while m < md.len()
        invariant
            m <= md@.len(),
            spec_md_find(md@, kind, 0) == spec_md_find(md@, kind, m as int),
        decreases md@.len() - m,
    {
        if md[m].kind == kind {
            proof {
                assert(spec_md_find(md@, kind, m as int) == Some(m as int));
            }
            return Some(m);
        }
        m += 1;
    }
    proof {
        assert(spec_md_find(md@, kind, md@.len() as int) is None);
    }
    None
}

impl Registry {
    /// Issues a new token to `owner`, assigning the next dense index and the
    /// external identifier of the configured mode, after checking the pause
    /// switch, the minting mode, the supply cap, registration duty, and the
    /// metadata. A failing mint changes nothing.
    #[verifier::rlimit(100)]
    pub fn mint(&mut self, caller: &Principal, owner: &Principal, metadata: Vec<MetadataEntry>) -> (r:
        Result<(u64, Event), Error>)
        requires
            old(self).wf(),
        ensures
            final(self).wf(),
            match spec_mint_err(*old(self), *caller, *owner, metadata@) {
                Some(e) => r == Err::<(u64, Event), Error>(e) && *final(self) == *old(self),
                None => {
                    &&& r == Ok::<(u64, Event), Error>(
                        (
                            old(self).tokens@.len() as u64,
                            Event::Mint {
                                recipient: *owner,
                                token_index: old(self).tokens@.len() as u64,
                            },
                        ),
                    )
                    &&& final(self).tokens@.len() == old(self).tokens@.len() + 1
                    &&& final(self).tokens@.drop_last() == old(self).tokens@
                    &&& final(self).tokens@.last().owner == *owner
                    &&& final(self).tokens@.last().issuer == *caller
                    &&& !final(self).tokens@.last().burned
                    &&& final(self).tokens@.last().approved is None
                    &&& final(self).tokens@.last().ident == spec_mint_ident(*old(self), metadata@)
                    &&& spec_md_view(final(self).tokens@.last().metadata@) == spec_md_view(
                        metadata@,
                    )
                    &&& final(self).config == old(self).config
                    &&& final(self).operators@ == old(self).operators@
                    &&& final(self).migration == old(self).migration
                    &&& forall|p: Principal|
                        final(self).spec_balance(p) == old(self).spec_balance(p) + (if p
                            == *owner {
                            1int
                        } else {
                            0int
                        })
                    &&& forall|p: Principal, t: int|
                        final(self).spec_holds(p, t) == (old(self).spec_holds(p, t) || (p
                            == *owner && t == old(self).tokens@.len()))
                    &&& forall|p: Principal|
                        final(self).spec_registered(p) == (old(self).spec_registered(p) || p
                            == *owner)
                },
            },
    {
        if !self.config.allow_minting {
            return Err(Error::MintingPaused);
        }
        let mode_ok = match self.config.minting_mode {
            MintingMode::Public => true,
            MintingMode::Installer => *caller == self.config.installer,
            MintingMode::Acl => principals_contain(&self.config.minting_acl, caller),
        };
        if !mode_ok {
            return Err(Error::InvalidMintingMode);
        }
        let idx = self.tokens.len();
        if idx as u64 >= self.config.total_token_supply {
            return Err(Error::SupplyExceeded);
        }
        if matches!(self.config.reverse_lookup_mode, OwnerReverseLookupMode::Complete)
            && !self.is_registered(owner) {
            return Err(Error::UnregisteredOwner);
        }
        // validate the supplied metadata: kinds distinct, accepted, blobs valid
        let mut store: Vec<MetadataEntry> = Vec::new();
        let mut i: usize = 0;
        while i < metadata.len()
            invariant
                i <= metadata@.len(),
                *self == *old(self),
                old(self).wf(),
                old(self).config.allow_minting,
                spec_minter_ok(old(self).config, *caller),
                old(self).tokens@.len() < old(self).config.total_token_supply,
                !(old(self).config.reverse_lookup_mode == OwnerReverseLookupMode::Complete && !old(
                    self,
                ).spec_registered(*owner)),
                forall|a: int, b: int| 0 <= a < b < i ==> metadata@[a].kind != metadata@[b].kind,
                forall|a: int|
                    0 <= a < i ==> old(self).config.spec_accepts_kind(
                        (#[trigger] metadata@[a]).kind,
                    ),
                forall|a: int|
                    0 <= a < i ==> spec_valid_metadata(
                        (#[trigger] metadata@[a]).kind,
                        metadata@[a].blob@,
                    ),
                store@.len() == i,
                forall|a: int|
                    0 <= a < i ==> (#[trigger] store@[a]).kind == metadata@[a].kind
                        && store@[a].blob@ == metadata@[a].blob@,
            decreases metadata@.len() - i,
        {
            let mut j: usize = 0;
            while j < i
                invariant
                    j <= i < metadata@.len(),
                    *self == *old(self),
                    old(self).wf(),
                    old(self).config.allow_minting,
                    spec_minter_ok(old(self).config, *caller),
                    old(self).tokens@.len() < old(self).config.total_token_supply,
                    !(old(self).config.reverse_lookup_mode == OwnerReverseLookupMode::Complete
                        && !old(self).spec_registered(*owner)),
                    forall|a: int| 0 <= a < j ==> metadata@[a].kind != metadata@[i as int].kind,
                decreases i - j,
            {
                if metadata[j].kind == metadata[i].kind {
                    proof {
                        assert(!spec_md_kinds_distinct(metadata@));
                    }
                    return Err(Error::InvalidMetadata);
                }
                j += 1;
            }
            if !self.config.accepts_kind(metadata[i].kind) {
                return Err(Error::InvalidMetadata);
            }
            match validate(metadata[i].kind, &metadata[i].blob) {
                Err(_) => {
                    return Err(Error::InvalidMetadata);
                },
                Ok(b) => {
                    store.push(MetadataEntry { kind: metadata[i].kind, blob: b });
                },
            }
            i += 1;
        }
        proof {
            assert(spec_md_ok(old(self).config, metadata@));
        }
        // every required kind must have been supplied
        let mut k: usize = 0;
        while k < self.config.required_kinds.len()
            invariant
                k <= self.config.required_kinds@.len(),
                *self == *old(self),
                old(self).wf(),
                old(self).config.allow_minting,
                spec_minter_ok(old(self).config, *caller),
                old(self).tokens@.len() < old(self).config.total_token_supply,
                !(old(self).config.reverse_lookup_mode == OwnerReverseLookupMode::Complete && !old(
                    self,
                ).spec_registered(*owner)),
                spec_md_ok(old(self).config, metadata@),
                forall|q: int|
                    0 <= q < k ==> spec_md_find(
                        metadata@,
                        old(self).config.required_kinds@[q],
                        0,
                    ) is Some,
            decreases self.config.required_kinds@.len() - k,
        {
            let kind = self.config.required_kinds[k];
            if find_md_kind(&metadata, kind).is_none() {
                return Err(Error::MissingMetadataKind);
            }
            k += 1;
        }
        proof {
            assert(spec_md_complete(old(self).config, metadata@));
        }
        // assign the external identifier
        let ident: u64;
        if matches!(self.config.identifier_mode, NFTIdentifierMode::Ordinal) {
            ident = idx as u64;
        } else {
            let kind = self.config.required_kinds[0];
            let m = match find_md_kind(&metadata, kind) {
                Some(m) => m,
                None => {
                    proof {
                        assert(false);
                    }
                    return Err(Error::MissingMetadataKind);
                },
            };
            ident = content_hash(&metadata[m].blob);
            proof {
                assert(ident == spec_mint_ident(*old(self), metadata@));
            }
            // reject a hash already carried by a live token
            let mut t: usize = 0;
            while t < self.tokens.len()
                invariant
                    t <= self.tokens@.len(),
                    *self == *old(self),
                    forall|q: int|
                        0 <= q < t ==> !(!(#[trigger] self.tokens@[q]).burned
                            && self.tokens@[q].ident == ident),
                    old(self).wf(),
                    old(self).config.allow_minting,
                    spec_minter_ok(old(self).config, *caller),
                    old(self).tokens@.len() < old(self).config.total_token_supply,
                    !(old(self).config.reverse_lookup_mode == OwnerReverseLookupMode::Complete
                        && !old(self).spec_registered(*owner)),
                    spec_md_ok(old(self).config, metadata@),
                    spec_md_complete(old(self).config, metadata@),
                    old(self).config.identifier_mode == NFTIdentifierMode::Hash,
                    ident == spec_mint_ident(*old(self), metadata@),
                decreases self.tokens@.len() - t,
            {
                if !self.tokens[t].burned && self.tokens[t].ident == ident {
                    proof {
                        assert(spec_dup_ident(*old(self), ident));
                    }
                    return Err(Error::DuplicateIdentifier);
                }
                t += 1;
            }
            proof {
                assert(!spec_dup_ident(*old(self), ident));
            }
        }
        proof {
            assert(spec_mint_err(*old(self), *caller, *owner, metadata@) is None);
        }
        // all checks passed: commit
        let ghost s0 = *old(self);
        self.register_owner(owner);
        let ghost s1 = *self;
        let oi = match self.find_owner(owner) {
            Some(oi) => oi,
            None => {
                proof {
                    assert(false);
                }
                return Err(Error::UnregisteredOwner);
            },
        };
        let rec = TokenRecord {
            owner: *owner,
            issuer: *caller,
            metadata: store,
            burned: false,
            ident,
            approved: None,
        };
        self.tokens.push(rec);
        let n2 = self.tokens.len();
        proof {
            assert(idx < n2 <= usize::MAX);
        }
        let ghost s2 = *self;
        proof {
            lemma_sum_ge(s1.owners@, oi as int);
            lemma_live_le_len(s1.tokens@);
        }
        let mut entry = self.owners.remove(oi);
        entry.table.set(idx);
        let ghost newtab = entry.table;
        self.owners.insert(oi, entry);
        proof {
            let e2 = OwnerEntry { principal: *owner, table: newtab };
            assert(self.owners@ =~= s1.owners@.update(oi as int, e2));
            let fowners = self.owners@;
            let ftokens = self.tokens@;
            assert(ftokens =~= s1.tokens@.push(rec));
            assert(ftokens.drop_last() =~= s1.tokens@);
            // registered set is unchanged by the entry update
            assert forall|p: Principal|
                self.spec_registered(p) == s1.spec_registered(p) by {
                if self.spec_registered(p) {
                    let w = choose|w: int| 0 <= w < fowners.len() && fowners[w].principal == p;
                    assert(s1.owners@[w].principal == p);
                }
                if s1.spec_registered(p) {
                    let w = choose|w: int|
                        0 <= w < s1.owners@.len() && s1.owners@[w].principal == p;
                    assert(fowners[w].principal == p);
                }
            }
            // distinctness carries over
            assert forall|a: int, b: int|
                0 <= a < b < fowners.len() implies fowners[a].principal
                != fowners[b].principal by {
                assert(fowners[a].principal == s1.owners@[a].principal);
                assert(fowners[b].principal == s1.owners@[b].principal);
            }
            // per-table wellformedness and the page bound
            assert forall|oj: int|
                0 <= oj < fowners.len() implies (#[trigger] fowners[oj].table).wf() by {
                if oj != oi as int {
                    assert(fowners[oj].table == s1.owners@[oj].table);
                }
            }
            assert forall|oj: int|
                0 <= oj < fowners.len() implies (#[trigger] fowners[oj].table).spec_page_count()
                <= (ftokens.len() as int) / (PAGE_WIDTH as int) + 1 by {
                lemma_div_is_ordered(
                    s1.tokens@.len() as int,
                    ftokens.len() as int,
                    PAGE_WIDTH as int,
                );
                if oj != oi as int {
                    assert(fowners[oj].table == s1.owners@[oj].table);
                    assert(s1.owners@[oj].table.spec_page_count() <= (s1.tokens@.len() as int) / (
                    PAGE_WIDTH as int) + 1);
                } else {
                    assert(s1.owners@[oi as int].table.spec_page_count() <= (
                    s1.tokens@.len() as int) / (PAGE_WIDTH as int) + 1);
                }
            }
            // the bit matrix matches the new row set
            assert(!s1.owners@[oi as int].table.spec_bit(idx as int));
            assert forall|oj: int, t: int|
                0 <= oj < fowners.len() implies (#[trigger] fowners[oj].table.spec_bit(t)) == (0
                <= t < ftokens.len() && !ftokens[t].burned && ftokens[t].owner
                == fowners[oj].principal) by {
                if oj == oi as int {
                    assert(fowners[oj].table.spec_bit(t) == (s1.owners@[oj].table.spec_bit(t) || t
                        == idx as int));
                } else {
                    assert(fowners[oj].table == s1.owners@[oj].table);
                    if t == idx as int {
                        assert(fowners[oj].principal != *owner);
                        assert(!s1.owners@[oj].table.spec_bit(t));
                    }
                }
            }
            // every live owner is registered
            assert forall|t: int|
                0 <= t < ftokens.len() && !(#[trigger] ftokens[t]).burned implies
                self.spec_registered(ftokens[t].owner) by {
                if t < s1.tokens@.len() {
                    assert(s1.spec_registered(s1.tokens@[t].owner));
                } else {
                    assert(ftokens[t].owner == *owner);
                    assert(s1.spec_registered(*owner));
                }
            }
            // the balance sum tracks the live count
            lemma_sum_update(s1.owners@, oi as int, e2);
            lemma_live_push(s1.tokens@, rec);
            // ordinal identifiers stay the indices
            if s0.config.identifier_mode == NFTIdentifierMode::Ordinal {
                assert forall|t: int|
                    0 <= t < ftokens.len() implies (#[trigger] ftokens[t]).ident == t by {
                    if t < s1.tokens@.len() {
                        assert(s1.tokens@[t].ident == t);
                    }
                }
            }
            // hash identifiers stay unique among live rows
            if s0.config.identifier_mode == NFTIdentifierMode::Hash {
                assert forall|a: int, b: int|
                    0 <= a < b < ftokens.len() && !ftokens[a].burned && !ftokens[b].burned implies
                    ftokens[a].ident != ftokens[b].ident by {
                    if b == idx as int {
                        assert(!spec_dup_ident(s0, ident));
                        assert(ftokens[a] == s0.tokens@[a]);
                    }
                }
            }
            // balances, holdings and registration as the contract states them
            lemma_balance_at(s1.owners@, oi as int, *owner);
            assert forall|p: Principal|
                self.spec_balance(p) == s0.spec_balance(p) + (if p == *owner {
                    1int
                } else {
                    0int
                }) by {
                lemma_balance_update(s1.owners@, oi as int, e2, p);
            }
            assert forall|p: Principal, t: int|
                self.spec_holds(p, t) == (s0.spec_holds(p, t) || (p == *owner && t
                    == s0.tokens@.len())) by {
                lemma_holds_update(s1.owners@, oi as int, e2, p, t);
                if p == *owner {
                    lemma_holds_at(s1.owners@, oi as int, *owner, t);
                }
            }
            assert(spec_md_view(rec.metadata@) == spec_md_view(metadata@));
        }
        Ok((idx as u64, Event::Mint { recipient: *owner, token_index: idx as u64 }))
    }
}

/// Why a burn call fails, or `None` when it succeeds.
pub open spec fn spec_burn_err(
    s: Registry,
    caller: Principal,
    ident: crate::principal::TokenIdentifier,
) -> Option<Error> {
    match s.spec_resolve(ident) {
        None => Some(Error::UnknownToken),
        Some(t) => if s.tokens@[t].burned {
            Some(Error::AlreadyBurned)
        } else if !s.spec_can_transfer(caller, t) {
            Some(Error::Unauthorized)
        } else {
            None
        },
    }
}

impl Registry {
    /// Whether `caller` may act on token `t`.
    pub fn can_transfer(&self, caller: &Principal, t: usize) -> (r: bool)
        requires
            self.wf(),
            t < self.tokens@.len(),
        ensures
            r == self.spec_can_transfer(*caller, t as int),
    {
        if self.tokens[t].owner == *caller {
            return true;
        }
        let approved = match &self.tokens[t].approved {
            Some(a) => *a == *caller,
            None => false,
        };
        if approved {
            return true;
        }
        let owner = self.tokens[t].owner;
        self.is_approved_for_all(&owner, caller)
    }

    /// Burns the token an identifier names: the row keeps its data under the
    /// burned flag (so a second burn is rejected as such), the owner's
    /// ownership bit is cleared exactly once, and the approval is dropped. A
    /// failing burn changes nothing.
    #[verifier::rlimit(100)]
    pub fn burn(&mut self, caller: &Principal, ident: &crate::principal::TokenIdentifier) -> (r:
        Result<Event, Error>)
        requires
            old(self).wf(),
        ensures
            final(self).wf(),
            match spec_burn_err(*old(self), *caller, *ident) {
                Some(e) => r == Err::<Event, Error>(e) && *final(self) == *old(self),
                None => {
                    let t = old(self).spec_resolve(*ident)->Some_0;
                    let owner = old(self).tokens@[t].owner;
                    &&& r == Ok::<Event, Error>(
                        Event::Burn { owner, token_index: t as u64 },
                    )
                    &&& final(self).tokens@.len() == old(self).tokens@.len()
                    &&& forall|q: int|
                        0 <= q < old(self).tokens@.len() && q != t ==> final(self).tokens@[q]
                            == old(self).tokens@[q]
                    &&& final(self).tokens@[t].burned
                    &&& final(self).tokens@[t].approved is None
                    &&& final(self).tokens@[t].owner == owner
                    &&& final(self).tokens@[t].issuer == old(self).tokens@[t].issuer
                    &&& final(self).tokens@[t].ident == old(self).tokens@[t].ident
                    &&& final(self).tokens@[t].metadata == old(self).tokens@[t].metadata
                    &&& final(self).config == old(self).config
                    &&& final(self).operators@ == old(self).operators@
                    &&& final(self).migration == old(self).migration
                    &&& forall|p: Principal|
                        final(self).spec_balance(p) == old(self).spec_balance(p) - (if p == owner {
                            1int
                        } else {
                            0int
                        })
                    &&& forall|p: Principal, q: int|
                        final(self).spec_holds(p, q) == (old(self).spec_holds(p, q) && !(p == owner
                            && q == t))
                    &&& forall|p: Principal|
                        final(self).spec_registered(p) == old(self).spec_registered(p)
                },
            },
    {
        let t = match self.resolve(ident) {
            None => {
                return Err(Error::UnknownToken);
            },
            Some(t) => t,
        };
        if self.tokens[t].burned {
            return Err(Error::AlreadyBurned);
        }
        if !self.can_transfer(caller, t) {
            return Err(Error::Unauthorized);
        }
        let ghost s0 = *old(self);
        let owner = self.tokens[t].owner;
        let oi = match self.find_owner(&owner) {
            Some(oi) => oi,
            None => {
                proof {
                    assert(s0.spec_registered(s0.tokens@[t as int].owner));
                    assert(false);
                }
                return Err(Error::UnknownToken);
            },
        };
        let mut rec = self.tokens.remove(t);
        rec.burned = true;
        rec.approved = None;
        let ghost newrec = rec;
        self.tokens.insert(t, rec);
        let ghost s2 = *self;
        proof {
            assert(s2.tokens@ =~= s0.tokens@.update(t as int, newrec));
        }
        let mut entry = self.owners.remove(oi);
        proof {
            assert(entry.table.spec_bit(t as int));
        }
        entry.table.clear(t);
        let ghost newtab = entry.table;
        self.owners.insert(oi, entry);
        proof {
            let e2 = OwnerEntry { principal: owner, table: newtab };
            assert(self.owners@ =~= s0.owners@.update(oi as int, e2));
            let fowners = self.owners@;
            let ftokens = self.tokens@;
            assert forall|p: Principal|
                self.spec_registered(p) == s0.spec_registered(p) by {
                if self.spec_registered(p) {
                    let w = choose|w: int| 0 <= w < fowners.len() && fowners[w].principal == p;
                    assert(s0.owners@[w].principal == p);
                }
                if s0.spec_registered(p) {
                    let w = choose|w: int|
                        0 <= w < s0.owners@.len() && s0.owners@[w].principal == p;
                    assert(fowners[w].principal == p);
                }
            }
            assert forall|a: int, b: int|
                0 <= a < b < fowners.len() implies fowners[a].principal
                != fowners[b].principal by {
                assert(fowners[a].principal == s0.owners@[a].principal);
                assert(fowners[b].principal == s0.owners@[b].principal);
            }
            assert forall|oj: int|
                0 <= oj < fowners.len() implies (#[trigger] fowners[oj].table).wf() by {
                if oj != oi as int {
                    assert(fowners[oj].table == s0.owners@[oj].table);
                }
            }
            assert forall|oj: int|
                0 <= oj < fowners.len() implies (#[trigger] fowners[oj].table).spec_page_count()
                <= (ftokens.len() as int) / (PAGE_WIDTH as int) + 1 by {
                if oj != oi as int {
                    assert(fowners[oj].table == s0.owners@[oj].table);
                }
                assert(s0.owners@[oj].table.spec_page_count() <= (s0.tokens@.len() as int) / (
                PAGE_WIDTH as int) + 1);
            }
            assert forall|oj: int, q: int|
                0 <= oj < fowners.len() implies (#[trigger] fowners[oj].table.spec_bit(q)) == (0
                <= q < ftokens.len() && !ftokens[q].burned && ftokens[q].owner
                == fowners[oj].principal) by {
                if oj == oi as int {
                    assert(fowners[oj].table.spec_bit(q) == (s0.owners@[oj].table.spec_bit(q) && q
                        != t as int));
                } else {
                    assert(fowners[oj].table == s0.owners@[oj].table);
                    if q == t as int {
                        assert(fowners[oj].principal != owner);
                        assert(!s0.owners@[oj].table.spec_bit(q));
                    }
                }
            }
            assert forall|q: int|
                0 <= q < ftokens.len() && !(#[trigger] ftokens[q]).burned implies
                self.spec_registered(ftokens[q].owner) by {
                assert(ftokens[q] == s0.tokens@[q]);
                assert(s0.spec_registered(s0.tokens@[q].owner));
            }
            lemma_sum_update(s0.owners@, oi as int, e2);
            crate::registry::lemma_live_update(s0.tokens@, t as int, newrec);
            if s0.config.identifier_mode == NFTIdentifierMode::Ordinal {
                assert forall|q: int|
                    0 <= q < ftokens.len() implies (#[trigger] ftokens[q]).ident == q by {
                    assert(s0.tokens@[q].ident == q);
                }
            }
            if s0.config.identifier_mode == NFTIdentifierMode::Hash {
                assert forall|a: int, b: int|
                    0 <= a < b < ftokens.len() && !ftokens[a].burned && !ftokens[b].burned implies
                    ftokens[a].ident != ftokens[b].ident by {
                    assert(!s0.tokens@[a].burned && !s0.tokens@[b].burned);
                }
            }
            lemma_balance_at(s0.owners@, oi as int, owner);
            assert forall|p: Principal|
                self.spec_balance(p) == s0.spec_balance(p) - (if p == owner {
                    1int
                } else {
                    0int
                }) by {
                lemma_balance_update(s0.owners@, oi as int, e2, p);
            }
            assert forall|p: Principal, q: int|
                self.spec_holds(p, q) == (s0.spec_holds(p, q) && !(p == owner && q
                    == t as int)) by {
                lemma_holds_update(s0.owners@, oi as int, e2, p, q);
                if p == owner {
                    lemma_holds_at(s0.owners@, oi as int, owner, q);
                }
            }
        }
        Ok(Event::Burn { owner, token_index: t as u64 })
    }

    /// Records, replaces or withdraws the single approved spender for a
    /// token. Only the current owner may do so, and never on a burned token.
    #[verifier::rlimit(100)]
    pub fn approve(
        &mut self,
        caller: &Principal,
        ident: &crate::principal::TokenIdentifier,
        spender: Option<Principal>,
    ) -> (r: Result<Event, Error>)
        requires
            old(self).wf(),
        ensures
            final(self).wf(),
            match spec_approve_err(*old(self), *caller, *ident) {
                Some(e) => r == Err::<Event, Error>(e) && *final(self) == *old(self),
                None => {
                    let t = old(self).spec_resolve(*ident)->Some_0;
                    &&& r == Ok::<Event, Error>(
                        Event::Approval { owner: *caller, spender, token_index: t as u64 },
                    )
                    &&& final(self).tokens@.len() == old(self).tokens@.len()
                    &&& forall|q: int|
                        0 <= q < old(self).tokens@.len() && q != t ==> final(self).tokens@[q]
                            == old(self).tokens@[q]
                    &&& final(self).tokens@[t].approved == spender
                    &&& final(self).tokens@[t].owner == old(self).tokens@[t].owner
                    &&& final(self).tokens@[t].burned == old(self).tokens@[t].burned
                    &&& final(self).tokens@[t].issuer == old(self).tokens@[t].issuer
                    &&& final(self).tokens@[t].ident == old(self).tokens@[t].ident
                    &&& final(self).tokens@[t].metadata == old(self).tokens@[t].metadata
                    &&& final(self).config == old(self).config
                    &&& final(self).owners@ == old(self).owners@
                    &&& final(self).operators@ == old(self).operators@
                    &&& final(self).migration == old(self).migration
                },
            },
    {
        let t = match self.resolve(ident) {
            None => {
                return Err(Error::UnknownToken);
            },
            Some(t) => t,
        };
        if self.tokens[t].burned {
            return Err(Error::Burned);
        }
        if !(self.tokens[t].owner == *caller) {
            return Err(Error::InvalidTokenOwner);
        }
        let ghost s0 = *old(self);
        let mut rec = self.tokens.remove(t);
        rec.approved = spender;
        let ghost newrec = rec;
        self.tokens.insert(t, rec);
        proof {
            assert(self.tokens@ =~= s0.tokens@.update(t as int, newrec));
            let ftokens = self.tokens@;
            assert forall|oj: int, q: int|
                0 <= oj < self.owners@.len() implies (#[trigger] self.owners@[oj].table.spec_bit(
                q,
            )) == (0 <= q < ftokens.len() && !ftokens[q].burned && ftokens[q].owner
                == self.owners@[oj].principal) by {
                if q == t as int {
                    assert(ftokens[q].burned == s0.tokens@[q].burned);
                    assert(ftokens[q].owner == s0.tokens@[q].owner);
                }
            }
            assert forall|q: int|
                0 <= q < ftokens.len() && !(#[trigger] ftokens[q]).burned implies
                self.spec_registered(ftokens[q].owner) by {
                assert(s0.spec_registered(s0.tokens@[q].owner));
            }
            crate::registry::lemma_live_update(s0.tokens@, t as int, newrec);
            if s0.config.identifier_mode == NFTIdentifierMode::Ordinal {
                assert forall|q: int|
                    0 <= q < ftokens.len() implies (#[trigger] ftokens[q]).ident == q by {
                    assert(s0.tokens@[q].ident == q);
                }
            }
            if s0.config.identifier_mode == NFTIdentifierMode::Hash {
                assert forall|a: int, b: int|
                    0 <= a < b < ftokens.len() && !ftokens[a].burned && !ftokens[b].burned implies
                    ftokens[a].ident != ftokens[b].ident by {
                    assert(!s0.tokens@[a].burned && !s0.tokens@[b].burned);
                }
            }
        }
        Ok(Event::Approval { owner: *caller, spender, token_index: t as u64 })
    }
}

/// Why a transfer call fails, or `None` when it succeeds.
pub open spec fn spec_transfer_err(
    s: Registry,
    caller: Principal,
    ident: crate::principal::TokenIdentifier,
    from: Principal,
    to: Principal,
) -> Option<Error> {
    if s.config.ownership_mode != crate::config::OwnershipMode::Transferable {
        Some(Error::InvalidOwnershipMode)
    } else {
        match s.spec_resolve(ident) {
            None => Some(Error::UnknownToken),
            Some(t) => if s.tokens@[t].burned {
                Some(Error::Burned)
            } else if s.tokens@[t].owner != from {
                Some(Error::InvalidTokenOwner)
            } else if !s.spec_can_transfer(caller, t) {
                Some(Error::Unauthorized)
            } else {
                None
            },
        }
    }
}

/// What a committed transfer did: row `t` now belongs to `to` with its
/// approval dropped, every other row stands, the source lost the holding,
/// the destination gained it, and nothing else moved.
pub open spec fn spec_transferred(s0: Registry, s1: Registry, from: Principal, to: Principal, t: int) -> bool {
    &&& s1.tokens@.len() == s0.tokens@.len()
    &&& forall|q: int| 0 <= q < s0.tokens@.len() && q != t ==> s1.tokens@[q] == s0.tokens@[q]
    &&& s1.tokens@[t].owner == to
    &&& s1.tokens@[t].approved is None
    &&& !s1.tokens@[t].burned
    &&& s1.tokens@[t].issuer == s0.tokens@[t].issuer
    &&& s1.tokens@[t].ident == s0.tokens@[t].ident
    &&& s1.tokens@[t].metadata == s0.tokens@[t].metadata
    &&& s1.config == s0.config
    &&& s1.operators@ == s0.operators@
    &&& s1.migration == s0.migration
    &&& forall|p: Principal|
        s1.spec_balance(p) == s0.spec_balance(p) + (if p == to {
            1int
        } else {
            0int
        }) - (if p == from {
            1int
        } else {
            0int
        })
    &&& forall|p: Principal, q: int|
        s1.spec_holds(p, q) == ((s0.spec_holds(p, q) && !(p == from && q == t)) || (p == to && q
            == t))
    &&& forall|p: Principal| s1.spec_registered(p) == (s0.spec_registered(p) || p == to)
}

impl Registry {
    /// Moves a token from `from` to `to` under the authorization rules: the
    /// source bit is cleared, the destination bit set, the owner field
    /// rewritten and any single approval dropped, all in one call. A failing
    /// transfer changes nothing.
    pub fn transfer(
        &mut self,
        caller: &Principal,
        ident: &crate::principal::TokenIdentifier,
        from: &Principal,
        to: &Principal,
    ) -> (r: Result<Event, Error>)
        requires
            old(self).wf(),
        ensures
            final(self).wf(),
            match spec_transfer_err(*old(self), *caller, *ident, *from, *to) {
                Some(e) => r == Err::<Event, Error>(e) && *final(self) == *old(self),
                None => {
                    let t = old(self).spec_resolve(*ident)->Some_0;
                    &&& r == Ok::<Event, Error>(
                        Event::Transfer { from: *from, to: *to, token_index: t as u64 },
                    )
                    &&& spec_transferred(*old(self), *final(self), *from, *to, t)
                },
            },
    {
        if !matches!(self.config.ownership_mode, crate::config::OwnershipMode::Transferable) {
            return Err(Error::InvalidOwnershipMode);
        }
        let t = match self.resolve(ident) {
            None => {
                return Err(Error::UnknownToken);
            },
            Some(t) => t,
        };
        if self.tokens[t].burned {
            return Err(Error::Burned);
        }
        if !(self.tokens[t].owner == *from) {
            return Err(Error::InvalidTokenOwner);
        }
        if !self.can_transfer(caller, t) {
            return Err(Error::Unauthorized);
        }
        self.transfer_commit(from, to, t);
        Ok(Event::Transfer { from: *from, to: *to, token_index: t as u64 })
    }

    /// The committed effect of a successful transfer, stated over the old
    /// and new registry states.
    #[verifier::rlimit(100)]
    fn transfer_commit(&mut self, from: &Principal, to: &Principal, t: usize)
        requires
            old(self).wf(),
            t < old(self).tokens@.len(),
            !old(self).tokens@[t as int].burned,
            old(self).tokens@[t as int].owner == *from,
        ensures
            final(self).wf(),
            final(self).tokens@.len() == old(self).tokens@.len(),
            forall|q: int|
                0 <= q < old(self).tokens@.len() && q != t ==> final(self).tokens@[q] == old(
                    self,
                ).tokens@[q],
            final(self).tokens@[t as int].owner == *to,
            final(self).tokens@[t as int].approved is None,
            !final(self).tokens@[t as int].burned,
            final(self).tokens@[t as int].issuer == old(self).tokens@[t as int].issuer,
            final(self).tokens@[t as int].ident == old(self).tokens@[t as int].ident,
            final(self).tokens@[t as int].metadata == old(self).tokens@[t as int].metadata,
            final(self).config == old(self).config,
            final(self).operators@ == old(self).operators@,
            final(self).migration == old(self).migration,
            forall|p: Principal|
                final(self).spec_balance(p) == old(self).spec_balance(p) + (if p == *to {
                    1int
                } else {
                    0int
                }) - (if p == *from {
                    1int
                } else {
                    0int
                }),
            forall|p: Principal, q: int| #![trigger final(self).spec_holds(p, q)]
                final(self).spec_holds(p, q) == ((old(self).spec_holds(p, q) && !(p == *from && q
                    == t)) || (p == *to && q == t)),
            forall|p: Principal|
                final(self).spec_registered(p) == (old(self).spec_registered(p) || p == *to),
    {
        let ghost s0 = *old(self);
        self.register_owner(to);
        let ghost s1 = *self;
        let oi_f = match self.find_owner(from) {
            Some(oi) => oi,
            None => {
                proof {
                    assert(s0.spec_registered(s0.tokens@[t as int].owner));
                    assert(false);
                }
                return ;
            },
        };
        let oi_t = match self.find_owner(to) {
            Some(oi) => oi,
            None => {
                proof {
                    assert(false);
                }
                return ;
            },
        };
        // clear the source owner's bit
        let mut entry_f = self.owners.remove(oi_f);
        proof {
            assert(entry_f.table.spec_bit(t as int));
        }
        entry_f.table.clear(t);
        let ghost tab_f = entry_f.table;
        self.owners.insert(oi_f, entry_f);
        let ghost ef = OwnerEntry { principal: *from, table: tab_f };
        let ghost sa_owners = s1.owners@.update(oi_f as int, ef);
        proof {
            assert(self.owners@ =~= sa_owners);
            lemma_sum_update(s1.owners@, oi_f as int, ef);
            lemma_live_le_len(s1.tokens@);
            lemma_sum_ge(sa_owners, oi_t as int);
        }
        // set the destination owner's bit
        let n = self.tokens.len();
        proof {
            assert(t < n);
        }
        let mut entry_t = self.owners.remove(oi_t);
        let ghost pre_tab_t = entry_t.table;
        entry_t.table.set(t);
        let ghost tab_t = entry_t.table;
        self.owners.insert(oi_t, entry_t);
        let ghost et = OwnerEntry { principal: *to, table: tab_t };
        let ghost fowners = sa_owners.update(oi_t as int, et);
        proof {
            assert(self.owners@ =~= fowners);
        }
        // rewrite the row: new owner, approval dropped
        let mut rec = self.tokens.remove(t);
        rec.owner = *to;
        rec.approved = None;
        let ghost newrec = rec;
        self.tokens.insert(t, rec);
        proof {
            assert(self.tokens@ =~= s0.tokens@.update(t as int, newrec));
            let ftokens = self.tokens@;
            // registration is untouched by the two entry updates
            assert forall|p: Principal|
                self.spec_registered(p) == s1.spec_registered(p) by {
                if self.spec_registered(p) {
                    let w = choose|w: int| 0 <= w < fowners.len() && fowners[w].principal == p;
                    assert(s1.owners@[w].principal == p);
                }
                if s1.spec_registered(p) {
                    let w = choose|w: int|
                        0 <= w < s1.owners@.len() && s1.owners@[w].principal == p;
                    assert(fowners[w].principal == p);
                }
            }
            assert forall|a: int, b: int|
                0 <= a < b < fowners.len() implies fowners[a].principal
                != fowners[b].principal by {
                assert(fowners[a].principal == s1.owners@[a].principal);
                assert(fowners[b].principal == s1.owners@[b].principal);
            }
            assert forall|oj: int|
                0 <= oj < fowners.len() implies (#[trigger] fowners[oj].table).wf() by {
                if oj != oi_f as int && oj != oi_t as int {
                    assert(fowners[oj].table == s1.owners@[oj].table);
                }
            }
            assert forall|oj: int|
                0 <= oj < fowners.len() implies (#[trigger] fowners[oj].table).spec_page_count()
                <= (ftokens.len() as int) / (PAGE_WIDTH as int) + 1 by {
                lemma_div_is_ordered(
                    (s1.tokens@.len() as int) - 1,
                    ftokens.len() as int,
                    PAGE_WIDTH as int,
                );
                if oj != oi_f as int && oj != oi_t as int {
                    assert(fowners[oj].table == s1.owners@[oj].table);
                    assert(s1.owners@[oj].table.spec_page_count() <= (s1.tokens@.len() as int) / (
                    PAGE_WIDTH as int) + 1);
                } else {
                    assert(s1.owners@[oj].table.spec_page_count() <= (s1.tokens@.len() as int) / (
                    PAGE_WIDTH as int) + 1);
                }
            }
            // bits match rows again
            assert forall|oj: int, q: int|
                0 <= oj < fowners.len() implies (#[trigger] fowners[oj].table.spec_bit(q)) == (0
                <= q < ftokens.len() && !ftokens[q].burned && ftokens[q].owner
                == fowners[oj].principal) by {
                if oj == oi_t as int {
                    if oi_t == oi_f {
                        assert(fowners[oj].table.spec_bit(q) == ((s1.owners@[oj].table.spec_bit(q)
                            && q != t as int) || q == t as int));
                    } else {
                        assert(fowners[oj].table.spec_bit(q) == (s1.owners@[oj].table.spec_bit(q)
                            || q == t as int));
                    }
                } else if oj == oi_f as int {
                    assert(fowners[oj].table.spec_bit(q) == (s1.owners@[oj].table.spec_bit(q) && q
                        != t as int));
                    if q == t as int {
                        assert(ftokens[q].owner == *to);
                        assert(fowners[oj].principal == *from);
                        assert(*from != *to);
                    }
                } else {
                    assert(fowners[oj].table == s1.owners@[oj].table);
                    if q == t as int {
                        assert(fowners[oj].principal != *to);
                        assert(!s1.owners@[oj].table.spec_bit(q));
                    }
                }
            }
            assert forall|q: int|
                0 <= q < ftokens.len() && !(#[trigger] ftokens[q]).burned implies
                self.spec_registered(ftokens[q].owner) by {
                if q != t as int {
                    assert(ftokens[q] == s0.tokens@[q]);
                    assert(s0.spec_registered(s0.tokens@[q].owner));
                }
            }
            // sum and live count both stand still
            lemma_sum_update(sa_owners, oi_t as int, et);
            crate::registry::lemma_live_update(s0.tokens@, t as int, newrec);
            if oi_t == oi_f {
                assert(spec_sum_counts(fowners) == spec_sum_counts(s1.owners@));
            } else {
                assert(sa_owners[oi_t as int].table == s1.owners@[oi_t as int].table);
                assert(spec_sum_counts(fowners) == spec_sum_counts(s1.owners@));
            }
            if s0.config.identifier_mode == NFTIdentifierMode::Ordinal {
                assert forall|q: int|
                    0 <= q < ftokens.len() implies (#[trigger] ftokens[q]).ident == q by {
                    assert(s0.tokens@[q].ident == q);
                }
            }
            if s0.config.identifier_mode == NFTIdentifierMode::Hash {
                assert forall|a: int, b: int|
                    0 <= a < b < ftokens.len() && !ftokens[a].burned && !ftokens[b].burned implies
                    ftokens[a].ident != ftokens[b].ident by {
                    assert(!s0.tokens@[a].burned && !s0.tokens@[b].burned);
                    assert(ftokens[a].ident == s0.tokens@[a].ident);
                    assert(ftokens[b].ident == s0.tokens@[b].ident);
                }
            }
            // balances and holdings as the contract states them
            lemma_balance_at(s1.owners@, oi_f as int, *from);
            assert forall|p: Principal|
                self.spec_balance(p) == s0.spec_balance(p) + (if p == *to {
                    1int
                } else {
                    0int
                }) - (if p == *from {
                    1int
                } else {
                    0int
                }) by {
                lemma_balance_update(s1.owners@, oi_f as int, ef, p);
                lemma_balance_update(sa_owners, oi_t as int, et, p);
                if oi_t != oi_f && p == *to {
                    lemma_balance_at(s1.owners@, oi_t as int, *to);
                    assert(sa_owners[oi_t as int].table == s1.owners@[oi_t as int].table);
                }
            }
            assert forall|p: Principal, q: int| #![trigger self.spec_holds(p, q)]
                self.spec_holds(p, q) == ((s0.spec_holds(p, q) && !(p == *from && q == t as int))
                    || (p == *to && q == t as int)) by {
                lemma_holds_update(s1.owners@, oi_f as int, ef, p, q);
                lemma_holds_update(sa_owners, oi_t as int, et, p, q);
                if p == *from {
                    lemma_holds_at(s1.owners@, oi_f as int, *from, q);
                }
                if p == *to && oi_t != oi_f {
                    lemma_holds_at(s1.owners@, oi_t as int, *to, q);
                    assert(sa_owners[oi_t as int].table == s1.owners@[oi_t as int].table);
                }
                if p != *from && p != *to {
                    lemma_holds_update(s1.owners@, oi_f as int, ef, p, q);
                }
            }
        }
    }
}

/// Why a metadata update fails, or `None` when it succeeds. In an immutable
/// collection every update is forbidden outright, whoever calls and whatever
/// token is named.
pub open spec fn spec_set_metadata_err(
    s: Registry,
    caller: Principal,
    ident: crate::principal::TokenIdentifier,
    kind: crate::config::NFTMetadataKind,
    blob: Seq<u8>,
) -> Option<Error> {
    if s.config.metadata_mutability != crate::config::MetadataMutability::Mutable {
        Some(Error::ForbiddenMetadataUpdate)
    } else {
        match s.spec_resolve(ident) {
            None => Some(Error::UnknownToken),
            Some(t) => if s.tokens@[t].burned {
                Some(Error::Burned)
            } else if s.tokens@[t].owner != caller {
                Some(Error::InvalidTokenOwner)
            } else if spec_md_find(s.tokens@[t].metadata@, kind, 0) is None {
                Some(Error::MissingMetadataKind)
            } else if !spec_valid_metadata(kind, blob) {
                Some(Error::InvalidMetadata)
            } else {
                None
            },
        }
    }
}

impl Registry {
    /// Replaces the stored blob of one schema kind on a token. Allowed only
    /// in a mutable collection, only to the current owner, only for a kind
    /// the token already carries, and only with a blob that validates. A
    /// failing update changes nothing.
    #[verifier::rlimit(100)]
    pub fn set_metadata(
        &mut self,
        caller: &Principal,
        ident: &crate::principal::TokenIdentifier,
        kind: crate::config::NFTMetadataKind,
        blob: &Vec<u8>,
    ) -> (r: Result<Event, Error>)
        requires
            old(self).wf(),
        ensures
            final(self).wf(),
            match spec_set_metadata_err(*old(self), *caller, *ident, kind, blob@) {
                Some(e) => r == Err::<Event, Error>(e) && *final(self) == *old(self),
                None => {
                    let t = old(self).spec_resolve(*ident)->Some_0;
                    let m = spec_md_find(old(self).tokens@[t].metadata@, kind, 0)->Some_0;
                    &&& r == Ok::<Event, Error>(
                        Event::MetadataUpdated { token_index: t as u64, kind },
                    )
                    &&& final(self).tokens@.len() == old(self).tokens@.len()
                    &&& forall|q: int|
                        0 <= q < old(self).tokens@.len() && q != t ==> final(self).tokens@[q]
                            == old(self).tokens@[q]
                    &&& final(self).tokens@[t].owner == old(self).tokens@[t].owner
                    &&& final(self).tokens@[t].burned == old(self).tokens@[t].burned
                    &&& final(self).tokens@[t].issuer == old(self).tokens@[t].issuer
                    &&& final(self).tokens@[t].ident == old(self).tokens@[t].ident
                    &&& final(self).tokens@[t].approved == old(self).tokens@[t].approved
                    &&& final(self).tokens@[t].metadata@.len() == old(self).tokens@[t].metadata@.len()
                    &&& forall|e: int|
                        0 <= e < old(self).tokens@[t].metadata@.len() && e != m ==> final(self).tokens@[t].metadata@[e] == old(self).tokens@[t].metadata@[e]
                    &&& final(self).tokens@[t].metadata@[m].kind == kind
                    &&& final(self).tokens@[t].metadata@[m].blob@ == blob@
                    &&& final(self).config == old(self).config
                    &&& final(self).owners@ == old(self).owners@
                    &&& final(self).operators@ == old(self).operators@
                    &&& final(self).migration == old(self).migration
                },
            },
    {
        if !matches!(self.config.metadata_mutability, crate::config::MetadataMutability::Mutable) {
            return Err(Error::ForbiddenMetadataUpdate);
        }
        let t = match self.resolve(ident) {
            None => {
                return Err(Error::UnknownToken);
            },
            Some(t) => t,
        };
        if self.tokens[t].burned {
            return Err(Error::Burned);
        }
        if !(self.tokens[t].owner == *caller) {
            return Err(Error::InvalidTokenOwner);
        }
        let m = match find_md_kind(&self.tokens[t].metadata, kind) {
            None => {
                return Err(Error::MissingMetadataKind);
            },
            Some(m) => m,
        };
        let checked = match validate(kind, blob) {
            Err(_) => {
                return Err(Error::InvalidMetadata);
            },
            Ok(b) => b,
        };
        let ghost s0 = *old(self);
        let mut rec = self.tokens.remove(t);
        let mut entry = rec.metadata.remove(m);
        entry.blob = checked;
        let ghost newentry = entry;
        rec.metadata.insert(m, entry);
        proof {
            assert(rec.metadata@ =~= s0.tokens@[t as int].metadata@.update(m as int, newentry));
        }
        let ghost newrec = rec;
        self.tokens.insert(t, rec);
        proof {
            assert(self.tokens@ =~= s0.tokens@.update(t as int, newrec));
            let ftokens = self.tokens@;
            assert forall|oj: int, q: int|
                0 <= oj < self.owners@.len() implies (#[trigger] self.owners@[oj].table.spec_bit(
                q,
            )) == (0 <= q < ftokens.len() && !ftokens[q].burned && ftokens[q].owner
                == self.owners@[oj].principal) by {
                if q == t as int {
                    assert(ftokens[q].burned == s0.tokens@[q].burned);
                    assert(ftokens[q].owner == s0.tokens@[q].owner);
                }
            }
            assert forall|q: int|
                0 <= q < ftokens.len() && !(#[trigger] ftokens[q]).burned implies
                self.spec_registered(ftokens[q].owner) by {
                assert(s0.spec_registered(s0.tokens@[q].owner));
            }
            crate::registry::lemma_live_update(s0.tokens@, t as int, newrec);
            if s0.config.identifier_mode == NFTIdentifierMode::Ordinal {
                assert forall|q: int|
                    0 <= q < ftokens.len() implies (#[trigger] ftokens[q]).ident == q by {
                    assert(s0.tokens@[q].ident == q);
                }
            }
            if s0.config.identifier_mode == NFTIdentifierMode::Hash {
                assert forall|a: int, b: int|
                    0 <= a < b < ftokens.len() && !ftokens[a].burned && !ftokens[b].burned implies
                    ftokens[a].ident != ftokens[b].ident by {
                    assert(!s0.tokens@[a].burned && !s0.tokens@[b].burned);
                }
            }
        }
        Ok(Event::MetadataUpdated { token_index: t as u64, kind })
    }
}

/// Why an approve call fails, or `None` when it succeeds.
pub open spec fn spec_approve_err(
    s: Registry,
    caller: Principal,
    ident: crate::principal::TokenIdentifier,
) -> Option<Error> {
    match s.spec_resolve(ident) {
        None => Some(Error::UnknownToken),
        Some(t) => if s.tokens@[t].burned {
            Some(Error::Burned)
        } else if s.tokens@[t].owner != caller {
            Some(Error::InvalidTokenOwner)
        } else {
            None
        },
    }
}

} // verus!
