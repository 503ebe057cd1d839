use vstd::prelude::*;
use crate::config::NFTIdentifierMode;
use crate::error::Error;
use crate::hashing::{content_hash, spec_content_hash};
use crate::pagetable::PAGE_WIDTH;
use crate::principal::Principal;
use crate::registry::{
    MetadataEntry, MigrationState, NamedKeyConventionMode, OwnerEntry, Registry, TokenRecord,
    lemma_balance_at, lemma_balance_update, lemma_holds_at, lemma_holds_update, lemma_live_le_len,
    lemma_live_push, lemma_sum_ge, lemma_sum_update,
};
use crate::registry_ops::spec_dup_ident;
use vstd::arithmetic::div_mod::lemma_div_is_ordered;

verus! {

/// One token of the prior deployment, as the migration batches hand it over:
/// its owner and the metadata blob the prior layout stored for it.
#[derive(Debug)]
pub struct PriorRecord {
    pub owner: Principal,
    pub metadata: Vec<u8>,
}

/// The supply cap migration ends up with: the requested one, or the prior
/// cap when none was requested.
pub open spec fn spec_effective_cap(prior_cap: u64, new_cap: Option<u64>) -> u64 {
    match new_cap {
        Some(c) => c,
        None => prior_cap,
    }
}

/// Why entering migration fails, or `None` when it succeeds; the checks run
/// in this order.
pub open spec fn spec_migrate_err(
    s: Registry,
    prior_cap: u64,
    prior_minted: u64,
    new_cap: Option<u64>,
) -> Option<Error> {
    if s.migration != MigrationState::NotStarted {
        Some(Error::AlreadyMigrated)
    } else if prior_cap == 0 {
        Some(Error::ZeroIssuance)
    } else if new_cap matches Some(c) && c > prior_cap {
        Some(Error::SupplyIncreaseForbidden)
    } else if spec_effective_cap(prior_cap, new_cap) == 0 || prior_minted > prior_cap {
        Some(Error::InvalidConfiguration)
    } else if s.tokens@.len() + prior_minted > spec_effective_cap(prior_cap, new_cap) {
        Some(Error::SupplyExceeded)
    } else {
        None
    }
}

/// In hash mode a batch is admissible when its content hashes collide
/// neither with each other nor with a live row.
pub open spec fn spec_batch_ok(s: Registry, records: Seq<PriorRecord>) -> bool {
    s.config.identifier_mode == NFTIdentifierMode::Hash ==> {
        &&& forall|a: int, b: int|
            0 <= a < b < records.len() ==> spec_content_hash((#[trigger] records[a]).metadata@)
                != spec_content_hash((#[trigger] records[b]).metadata@)
        &&& forall|a: int|
            0 <= a < records.len() ==> !spec_dup_ident(
                s,
                spec_content_hash((#[trigger] records[a]).metadata@),
            )
    }
}

/// Why a migration step fails, or `None` when it succeeds.
pub open spec fn spec_step_err(s: Registry, records: Seq<PriorRecord>) -> Option<Error> {
    match s.migration {
        MigrationState::NotStarted => Some(Error::MigrationNotStarted),
        MigrationState::Complete => Some(Error::AlreadyMigrated),
        MigrationState::InProgress { prior_cap, target, progress, convention } => if progress
            + records.len() > target {
            Some(Error::InvalidConfiguration)
        } else if s.tokens@.len() + records.len() > s.config.total_token_supply {
            Some(Error::SupplyExceeded)
        } else if !spec_batch_ok(s, records) {
            Some(Error::DuplicateIdentifier)
        } else {
            None
        },
    }
}

/// Why a cap change during migration fails, or `None` when it succeeds.
pub open spec fn spec_upgrade_err(s: Registry, new_cap: u64) -> Option<Error> {
    match s.migration {
        MigrationState::NotStarted => Some(Error::MigrationNotStarted),
        MigrationState::Complete => Some(Error::AlreadyMigrated),
        MigrationState::InProgress { prior_cap, target, progress, convention } => if new_cap
            > prior_cap {
            Some(Error::SupplyIncreaseForbidden)
        } else if new_cap == 0 {
            Some(Error::InvalidConfiguration)
        } else if s.tokens@.len() > new_cap {
            Some(Error::SupplyExceeded)
        } else {
            None
        },
    }
}

impl Registry {
    /// Enters migration from a prior deployment: records the prior layout's
    /// named-key convention and the number of tokens to copy, and pins the
    /// supply cap, which may shrink or stand but never grow past the prior
    /// one. With nothing to copy the migration completes on the spot.
    /// Re-entry on anything but a fresh instance is rejected, as is a prior
    /// deployment that never could have issued a token.
    pub fn migrate(
        &mut self,
        prior_cap: u64,
        prior_minted: u64,
        convention: NamedKeyConventionMode,
        new_cap: Option<u64>,
    ) -> (r: Result<(), Error>)
        requires
            old(self).wf(),
        ensures
            final(self).wf(),
            match spec_migrate_err(*old(self), prior_cap, prior_minted, new_cap) {
                Some(e) => r == Err::<(), Error>(e) && *final(self) == *old(self),
                None => {
                    &&& r == Ok::<(), Error>(())
                    &&& final(self).config.total_token_supply == spec_effective_cap(
                        prior_cap,
                        new_cap,
                    )
                    &&& final(self).config.identifier_mode == old(self).config.identifier_mode
                    &&& final(self).config.metadata_mutability == old(
                        self,
                    ).config.metadata_mutability
                    &&& final(self).config.ownership_mode == old(self).config.ownership_mode
                    &&& final(self).config.minting_mode == old(self).config.minting_mode
                    &&& final(self).config.reverse_lookup_mode == old(
                        self,
                    ).config.reverse_lookup_mode
                    &&& final(self).config.required_kinds == old(self).config.required_kinds
                    &&& final(self).config.optional_kinds == old(self).config.optional_kinds
                    &&& final(self).config.allow_minting == old(self).config.allow_minting
                    &&& final(self).config.installer == old(self).config.installer
                    &&& final(self).config.minting_acl == old(self).config.minting_acl
                    &&& final(self).migration == (if prior_minted == 0 {
                        MigrationState::Complete
                    } else {
                        MigrationState::InProgress {
                            prior_cap,
                            target: prior_minted,
                            progress: 0,
                            convention,
                        }
                    })
                    &&& final(self).tokens@ == old(self).tokens@
                    &&& final(self).owners@ == old(self).owners@
                    &&& final(self).operators@ == old(self).operators@
                },
            },
    {
        if !matches!(self.migration, MigrationState::NotStarted) {
            return Err(Error::AlreadyMigrated);
        }
        if prior_cap == 0 {
            return Err(Error::ZeroIssuance);
        }
        let effective: u64 = match new_cap {
            Some(c) => {
                if c > prior_cap {
                    return Err(Error::SupplyIncreaseForbidden);
                }
                c
            },
            None => prior_cap,
        };
        if effective == 0 || prior_minted > prior_cap {
            return Err(Error::InvalidConfiguration);
        }
        let n = self.tokens.len();
        if prior_minted > effective || n as u64 > effective - prior_minted {
            return Err(Error::SupplyExceeded);
        }
        self.config.total_token_supply = effective;
        self.migration = if prior_minted == 0 {
            MigrationState::Complete
        } else {
            MigrationState::InProgress { prior_cap, target: prior_minted, progress: 0, convention }
        };
        Ok(())
    }

    /// Lowers (or keeps) the supply cap while a migration is in progress; a
    /// deployed collection may never grow its cap through migration.
    pub fn upgrade_config(&mut self, new_cap: u64) -> (r: Result<(), Error>)
        requires
            old(self).wf(),
        ensures
            final(self).wf(),
            match spec_upgrade_err(*old(self), new_cap) {
                Some(e) => r == Err::<(), Error>(e) && *final(self) == *old(self),
                None => {
                    &&& r == Ok::<(), Error>(())
                    &&& final(self).config.total_token_supply == new_cap
                    &&& final(self).config.identifier_mode == old(self).config.identifier_mode
                    &&& final(self).config.metadata_mutability == old(
                        self,
                    ).config.metadata_mutability
                    &&& final(self).config.ownership_mode == old(self).config.ownership_mode
                    &&& final(self).config.minting_mode == old(self).config.minting_mode
                    &&& final(self).config.reverse_lookup_mode == old(
                        self,
                    ).config.reverse_lookup_mode
                    &&& final(self).config.required_kinds == old(self).config.required_kinds
                    &&& final(self).config.optional_kinds == old(self).config.optional_kinds
                    &&& final(self).config.allow_minting == old(self).config.allow_minting
                    &&& final(self).config.installer == old(self).config.installer
                    &&& final(self).config.minting_acl == old(self).config.minting_acl
                    &&& final(self).migration == old(self).migration
                    &&& final(self).tokens@ == old(self).tokens@
                    &&& final(self).owners@ == old(self).owners@
                    &&& final(self).operators@ == old(self).operators@
                },
            },
    {
        let prior_cap = match self.migration {
            MigrationState::NotStarted => {
                return Err(Error::MigrationNotStarted);
            },
            MigrationState::Complete => {
                return Err(Error::AlreadyMigrated);
            },
            MigrationState::InProgress { prior_cap, .. } => prior_cap,
        };
        if new_cap > prior_cap {
            return Err(Error::SupplyIncreaseForbidden);
        }
        if new_cap == 0 {
            return Err(Error::InvalidConfiguration);
        }
        let n = self.tokens.len();
        if n as u64 > new_cap {
            return Err(Error::SupplyExceeded);
        }
        self.config.total_token_supply = new_cap;
        Ok(())
    }

    /// Adopts one prior token into the current layout: a fresh row under the
    /// primary required kind, the owner registered and their bit set.
    #[verifier::rlimit(100)]
    fn adopt_record(&mut self, owner: &Principal, blob: Vec<u8>)
        requires
            old(self).wf(),
            old(self).tokens@.len() < old(self).config.total_token_supply,
            old(self).config.identifier_mode == NFTIdentifierMode::Hash ==> !spec_dup_ident(
                *old(self),
                spec_content_hash(blob@),
            ),
        ensures
            final(self).wf(),
            final(self).tokens@.len() == old(self).tokens@.len() + 1,
            final(self).tokens@.drop_last() == old(self).tokens@,
            final(self).tokens@.last().owner == *owner,
            final(self).tokens@.last().issuer == *owner,
            !final(self).tokens@.last().burned,
            final(self).tokens@.last().approved is None,
            final(self).tokens@.last().ident == (if old(self).config.identifier_mode
                == NFTIdentifierMode::Ordinal {
                old(self).tokens@.len() as u64
            } else {
                spec_content_hash(blob@)
            }),
            final(self).tokens@.last().metadata@.len() == 1,
            final(self).tokens@.last().metadata@[0].kind == old(self).config.required_kinds@[0],
            final(self).tokens@.last().metadata@[0].blob@ == blob@,
            final(self).config == old(self).config,
            final(self).operators@ == old(self).operators@,
            final(self).migration == old(self).migration,
            forall|p: Principal|
                final(self).spec_balance(p) == old(self).spec_balance(p) + (if p == *owner {
                    1int
                } else {
                    0int
                }),
            forall|p: Principal, t: int| #![trigger final(self).spec_holds(p, t)]
                final(self).spec_holds(p, t) == (old(self).spec_holds(p, t) || (p == *owner && t
                    == old(self).tokens@.len())),
            forall|p: Principal|
                final(self).spec_registered(p) == (old(self).spec_registered(p) || p == *owner),
    {
        let ghost s0 = *old(self);
        let idx = self.tokens.len();
        let ident: u64;
        if matches!(self.config.identifier_mode, NFTIdentifierMode::Ordinal) {
            ident = idx as u64;
        } else {
            ident = content_hash(&blob);
        }
        self.register_owner(owner);
        let ghost s1 = *self;
        let oi = match self.find_owner(owner) {
            Some(oi) => oi,
            None => {
                proof {
                    assert(false);
                }
                return ;
            },
        };
        let mut md: Vec<MetadataEntry> = Vec::new();
        let kind = self.config.required_kinds[0];
        md.push(MetadataEntry { kind, blob });
        let rec = TokenRecord {
            owner: *owner,
            issuer: *owner,
            metadata: md,
            burned: false,
            ident,
            approved: None,
        };
        self.tokens.push(rec);
        let n2 = self.tokens.len();
        proof {
            assert(idx < n2 <= usize::MAX);
            lemma_sum_ge(s1.owners@, oi as int);
            lemma_live_le_len(s1.tokens@);
        }
        let mut entry = self.owners.remove(oi);
        entry.table.set(idx);
        let ghost newtab = entry.table;
        self.owners.insert(oi, entry);
        proof {
            let e2 = OwnerEntry { principal: *owner, table: newtab };
            assert(self.owners@ =~= s1.owners@.update(oi as int, e2));
            let fowners = self.owners@;
            let ftokens = self.tokens@;
            assert(ftokens =~= s1.tokens@.push(rec));
            assert(ftokens.drop_last() =~= s1.tokens@);
            assert forall|p: Principal|
                self.spec_registered(p) == s1.spec_registered(p) by {
                if self.spec_registered(p) {
                    let w = choose|w: int| 0 <= w < fowners.len() && fowners[w].principal == p;
                    assert(s1.owners@[w].principal == p);
                }
                if s1.spec_registered(p) {
                    let w = choose|w: int|
                        0 <= w < s1.owners@.len() && s1.owners@[w].principal == p;
                    assert(fowners[w].principal == p);
                }
            }
            assert forall|a: int, b: int|
                0 <= a < b < fowners.len() implies fowners[a].principal
                != fowners[b].principal by {
                assert(fowners[a].principal == s1.owners@[a].principal);
                assert(fowners[b].principal == s1.owners@[b].principal);
            }
            assert forall|oj: int|
                0 <= oj < fowners.len() implies (#[trigger] fowners[oj].table).wf() by {
                if oj != oi as int {
                    assert(fowners[oj].table == s1.owners@[oj].table);
                }
            }
            assert forall|oj: int|
                0 <= oj < fowners.len() implies (#[trigger] fowners[oj].table).spec_page_count()
                <= (ftokens.len() as int) / (PAGE_WIDTH as int) + 1 by {
                lemma_div_is_ordered(
                    s1.tokens@.len() as int,
                    ftokens.len() as int,
                    PAGE_WIDTH as int,
                );
                if oj != oi as int {
                    assert(fowners[oj].table == s1.owners@[oj].table);
                    assert(s1.owners@[oj].table.spec_page_count() <= (s1.tokens@.len() as int) / (
                    PAGE_WIDTH as int) + 1);
                } else {
                    assert(s1.owners@[oi as int].table.spec_page_count() <= (
                    s1.tokens@.len() as int) / (PAGE_WIDTH as int) + 1);
                }
            }
            assert(!s1.owners@[oi as int].table.spec_bit(idx as int));
            assert forall|oj: int, t: int|
                0 <= oj < fowners.len() implies (#[trigger] fowners[oj].table.spec_bit(t)) == (0
                <= t < ftokens.len() && !ftokens[t].burned && ftokens[t].owner
                == fowners[oj].principal) by {
                if oj == oi as int {
                    assert(fowners[oj].table.spec_bit(t) == (s1.owners@[oj].table.spec_bit(t) || t
                        == idx as int));
                } else {
                    assert(fowners[oj].table == s1.owners@[oj].table);
                    if t == idx as int {
                        assert(fowners[oj].principal != *owner);
                        assert(!s1.owners@[oj].table.spec_bit(t));
                    }
                }
            }
            assert forall|t: int|
                0 <= t < ftokens.len() && !(#[trigger] ftokens[t]).burned implies
                self.spec_registered(ftokens[t].owner) by {
                if t < s1.tokens@.len() {
                    assert(s1.spec_registered(s1.tokens@[t].owner));
                } else {
                    assert(ftokens[t].owner == *owner);
                    assert(s1.spec_registered(*owner));
                }
            }
            lemma_sum_update(s1.owners@, oi as int, e2);
            lemma_live_push(s1.tokens@, rec);
            if s0.config.identifier_mode == NFTIdentifierMode::Ordinal {
                assert forall|t: int|
                    0 <= t < ftokens.len() implies (#[trigger] ftokens[t]).ident == t by {
                    if t < s1.tokens@.len() {
                        assert(s1.tokens@[t].ident == t);
                    }
                }
            }
            if s0.config.identifier_mode == NFTIdentifierMode::Hash {
                assert forall|a: int, b: int|
                    0 <= a < b < ftokens.len() && !ftokens[a].burned && !ftokens[b].burned implies
                    ftokens[a].ident != ftokens[b].ident by {
                    if b == idx as int {
                        assert(!spec_dup_ident(s0, ident));
                        assert(ftokens[a] == s0.tokens@[a]);
                    }
                }
            }
            lemma_balance_at(s1.owners@, oi as int, *owner);
            assert forall|p: Principal|
                self.spec_balance(p) == s0.spec_balance(p) + (if p == *owner {
                    1int
                } else {
                    0int
                }) by {
                lemma_balance_update(s1.owners@, oi as int, e2, p);
            }
            assert forall|p: Principal, t: int| #![trigger self.spec_holds(p, t)]
                self.spec_holds(p, t) == (s0.spec_holds(p, t) || (p == *owner && t
                    == s0.tokens@.len())) by {
                lemma_holds_update(s1.owners@, oi as int, e2, p, t);
                if p == *owner {
                    lemma_holds_at(s1.owners@, oi as int, *owner, t);
                }
            }
        }
    }
}

/// The prior cap an in-progress migration recorded.
pub open spec fn spec_mig_prior_cap(m: MigrationState) -> u64 {
    match m {
        MigrationState::InProgress { prior_cap, target, progress, convention } => prior_cap,
        _ => 0,
    }
}

/// The number of prior tokens an in-progress migration is to copy.
pub open spec fn spec_mig_target(m: MigrationState) -> u64 {
    match m {
        MigrationState::InProgress { prior_cap, target, progress, convention } => target,
        _ => 0,
    }
}

/// The number of prior tokens copied so far.
pub open spec fn spec_mig_progress(m: MigrationState) -> u64 {
    match m {
        MigrationState::InProgress { prior_cap, target, progress, convention } => progress,
        _ => 0,
    }
}

/// The named-key convention an in-progress migration recorded.
pub open spec fn spec_mig_convention(m: MigrationState) -> NamedKeyConventionMode {
    match m {
        MigrationState::InProgress { prior_cap, target, progress, convention } => convention,
        _ => NamedKeyConventionMode::DerivedFromCollectionName,
    }
}

impl Registry {
    /// Copies one bounded batch of prior tokens into the current layout,
    /// advancing the durable progress counter; the migration completes the
    /// moment the counter reaches the prior token count. Every prior
    /// owner-to-token relationship is preserved exactly; a failing step
    /// changes nothing.
    #[verifier::rlimit(100)]
    pub fn migrate_step(&mut self, records: Vec<PriorRecord>) -> (r: Result<bool, Error>)
        requires
            old(self).wf(),
        ensures
            final(self).wf(),
            match spec_step_err(*old(self), records@) {
                Some(e) => r == Err::<bool, Error>(e) && *final(self) == *old(self),
                None => {
                    let base = old(self).tokens@.len() as int;
                    let done = spec_mig_progress(old(self).migration) + records@.len()
                        == spec_mig_target(old(self).migration);
                    &&& r == Ok::<bool, Error>(done)
                    &&& final(self).migration == (if done {
                        MigrationState::Complete
                    } else {
                        MigrationState::InProgress {
                            prior_cap: spec_mig_prior_cap(old(self).migration),
                            target: spec_mig_target(old(self).migration),
                            progress: (spec_mig_progress(old(self).migration) + records@.len())
                                as u64,
                            convention: spec_mig_convention(old(self).migration),
                        }
                    })
                    &&& final(self).tokens@.len() == base + records@.len()
                    &&& final(self).tokens@.subrange(0, base) == old(self).tokens@
                    &&& forall|k: int|
                        0 <= k < records@.len() ==> {
                            let row = #[trigger] final(self).tokens@[base + k];
                            &&& row.owner == records@[k].owner
                            &&& row.issuer == records@[k].owner
                            &&& !row.burned
                            &&& row.approved is None
                            &&& row.metadata@.len() == 1
                            &&& row.metadata@[0].kind == old(self).config.required_kinds@[0]
                            &&& row.metadata@[0].blob@ == records@[k].metadata@
                            &&& row.ident == (if old(self).config.identifier_mode
                                == NFTIdentifierMode::Ordinal {
                                (base + k) as u64
                            } else {
                                spec_content_hash(records@[k].metadata@)
                            })
                        }
                    &&& final(self).config == old(self).config
                    &&& final(self).operators@ == old(self).operators@
                    &&& forall|p: Principal| #![trigger final(self).spec_registered(p)]
                        final(self).spec_registered(p) == (old(self).spec_registered(p)
                            || exists|j: int|
                            0 <= j < records@.len() && (#[trigger] records@[j]).owner == p)
                    &&& forall|p: Principal, t: int| #![trigger final(self).spec_holds(p, t)]
                        final(self).spec_holds(p, t) == (old(self).spec_holds(p, t) || exists|
                            j: int,
                        |
                            0 <= j < records@.len() && (#[trigger] records@[j]).owner == p && t
                                == base + j)
                },
            },
    {
        let (prior_cap, target, progress, convention) = match self.migration {
            MigrationState::NotStarted => {
                return Err(Error::MigrationNotStarted);
            },
            MigrationState::Complete => {
                return Err(Error::AlreadyMigrated);
            },
            MigrationState::InProgress { prior_cap, target, progress, convention } => (
                prior_cap,
                target,
                progress,
                convention,
            ),
        };
        let len = records.len();
        if progress > target || len as u64 > target - progress {
            return Err(Error::InvalidConfiguration);
        }
        let n0 = self.tokens.len();
        let cap = self.config.total_token_supply;
        if n0 as u64 > cap || len as u64 > cap - n0 as u64 {
            return Err(Error::SupplyExceeded);
        }
        // hash mode: the whole batch must be admissible before anything is
        // written, so a failing step leaves the registry untouched
        if matches!(self.config.identifier_mode, NFTIdentifierMode::Hash) {
            let mut a: usize = 0;
            while a < len
                invariant
                    a <= len,
                    len == records@.len(),
                    *self == *old(self),
                    old(self).wf(),
                    old(self).config.identifier_mode == NFTIdentifierMode::Hash,
                    self.migration == (MigrationState::InProgress {
                        prior_cap,
                        target,
                        progress,
                        convention,
                    }),
                    progress <= target && len as u64 <= target - progress,
                    self.tokens@.len() as u64 <= self.config.total_token_supply,
                    len as u64 <= self.config.total_token_supply - self.tokens@.len() as u64,
                    forall|x: int, y: int|
                        0 <= x < y < len && x < a ==> spec_content_hash(
                            (#[trigger] records@[x]).metadata@,
                        ) != spec_content_hash((#[trigger] records@[y]).metadata@),
                    forall|x: int|
                        0 <= x < a ==> !spec_dup_ident(
                            *old(self),
                            spec_content_hash((#[trigger] records@[x]).metadata@),
                        ),
                decreases len - a,
            {
                let ha = content_hash(&records[a].metadata);
                let mut b: usize = a + 1;
                while b < len
                    invariant
                        a < b <= len,
                        len == records@.len(),
                        *self == *old(self),
                        old(self).wf(),
                        old(self).config.identifier_mode == NFTIdentifierMode::Hash,
                        self.migration == (MigrationState::InProgress {
                            prior_cap,
                            target,
                            progress,
                            convention,
                        }),
                        progress <= target && len as u64 <= target - progress,
                        self.tokens@.len() as u64 <= self.config.total_token_supply,
                        len as u64 <= self.config.total_token_supply - self.tokens@.len() as u64,
                        ha == spec_content_hash(records@[a as int].metadata@),
                        forall|y: int|
                            a < y < b ==> spec_content_hash(records@[a as int].metadata@)
                                != spec_content_hash((#[trigger] records@[y]).metadata@),
                    decreases len - b,
                {
                    let hb = content_hash(&records[b].metadata);
                    if ha == hb {
                        proof {
                            assert(spec_content_hash(records@[a as int].metadata@)
                                == spec_content_hash(records@[b as int].metadata@));
                            assert(!spec_batch_ok(*old(self), records@));
                        }
                        return Err(Error::DuplicateIdentifier);
                    }
                    b += 1;
                }
                let mut t: usize = 0;
                while t < self.tokens.len()
                    invariant
                        t <= self.tokens@.len(),
                        *self == *old(self),
                        old(self).wf(),
                        old(self).config.identifier_mode == NFTIdentifierMode::Hash,
                        self.migration == (MigrationState::InProgress {
                            prior_cap,
                            target,
                            progress,
                            convention,
                        }),
                        progress <= target && len as u64 <= target - progress,
                        self.tokens@.len() as u64 <= self.config.total_token_supply,
                        len as u64 <= self.config.total_token_supply - self.tokens@.len() as u64,
                        ha == spec_content_hash(records@[a as int].metadata@),
                        a < len == records@.len(),
                        forall|q: int|
                            0 <= q < t ==> !(!(#[trigger] self.tokens@[q]).burned
                                && self.tokens@[q].ident == ha),
                    decreases self.tokens@.len() - t,
                {
                    if !self.tokens[t].burned && self.tokens[t].ident == ha {
                        proof {
                            assert(spec_dup_ident(*old(self), ha));
                            assert(!spec_batch_ok(*old(self), records@));
                        }
                        return Err(Error::DuplicateIdentifier);
                    }
                    t += 1;
                }
                proof {
                    assert(!spec_dup_ident(*old(self), ha));
                }
                a += 1;
            }
        }
        proof {
            assert(spec_batch_ok(*old(self), records@));
            assert(spec_step_err(*old(self), records@) is None);
        }
        let ghost s0 = *old(self);
        let mut k: usize = 0;
        while k < len
            invariant
                k <= len,
                len == records@.len(),
                self.wf(),
                s0 == *old(self),
                s0.wf(),
                s0.tokens@.len() as u64 <= cap,
                len as u64 <= cap - s0.tokens@.len() as u64,
                cap == s0.config.total_token_supply,
                self.tokens@.len() == s0.tokens@.len() + k,
                self.tokens@.subrange(0, s0.tokens@.len() as int) == s0.tokens@,
                self.config == s0.config,
                self.operators@ == s0.operators@,
                self.migration == s0.migration,
                spec_batch_ok(s0, records@),
                forall|j: int|
                    0 <= j < k ==> {
                        let row = #[trigger] self.tokens@[s0.tokens@.len() + j];
                        &&& row.owner == records@[j].owner
                        &&& row.issuer == records@[j].owner
                        &&& !row.burned
                        &&& row.approved is None
                        &&& row.metadata@.len() == 1
                        &&& row.metadata@[0].kind == s0.config.required_kinds@[0]
                        &&& row.metadata@[0].blob@ == records@[j].metadata@
                        &&& row.ident == (if s0.config.identifier_mode
                            == NFTIdentifierMode::Ordinal {
                            (s0.tokens@.len() + j) as u64
                        } else {
                            spec_content_hash(records@[j].metadata@)
                        })
                    },
                forall|p: Principal| #![trigger self.spec_registered(p)]
                    self.spec_registered(p) == (s0.spec_registered(p) || exists|j: int|
                        0 <= j < k && (#[trigger] records@[j]).owner == p),
                forall|p: Principal, t: int| #![trigger self.spec_holds(p, t)]
                    self.spec_holds(p, t) == (s0.spec_holds(p, t) || exists|j: int|
                        0 <= j < k && (#[trigger] records@[j]).owner == p && t
                            == s0.tokens@.len() + j),
                s0.config.identifier_mode == NFTIdentifierMode::Hash ==> forall|j: int|
                    k <= j < len ==> !spec_dup_ident(
                        *self,
                        spec_content_hash((#[trigger] records@[j]).metadata@),
                    ),
            decreases len - k,
        {
            let ghost pre = *self;
            let owner = records[k].owner;
            let blob = crate::metadata::clone_bytes(&records[k].metadata);
            self.adopt_record(&owner, blob);
            k += 1;
            proof {
                assert(self.tokens@.subrange(0, s0.tokens@.len() as int) =~= s0.tokens@);
                assert forall|j: int|
                    0 <= j < k implies {
                        let row = #[trigger] self.tokens@[s0.tokens@.len() + j];
                        &&& row.owner == records@[j].owner
                        &&& row.issuer == records@[j].owner
                        &&& !row.burned
                        &&& row.approved is None
                        &&& row.metadata@.len() == 1
                        &&& row.metadata@[0].kind == s0.config.required_kinds@[0]
                        &&& row.metadata@[0].blob@ == records@[j].metadata@
                        &&& row.ident == (if s0.config.identifier_mode
                            == NFTIdentifierMode::Ordinal {
                            (s0.tokens@.len() + j) as u64
                        } else {
                            spec_content_hash(records@[j].metadata@)
                        })
                    } by {
                    if j < k - 1 {
                        assert(self.tokens@[s0.tokens@.len() + j] == pre.tokens@[s0.tokens@.len()
                            + j]);
                    } else {
                        assert(self.tokens@[s0.tokens@.len() + j] == self.tokens@.last());
                    }
                }
                assert forall|p: Principal| #![trigger self.spec_registered(p)]
                    self.spec_registered(p) == (s0.spec_registered(p) || exists|j: int|
                        0 <= j < k && (#[trigger] records@[j]).owner == p) by {
                    if self.spec_registered(p) {
                        if pre.spec_registered(p) {
                            if !s0.spec_registered(p) {
                                let j = choose|j: int|
                                    0 <= j < k - 1 && (#[trigger] records@[j]).owner == p;
                                assert(records@[j].owner == p);
                            }
                        } else {
                            assert(records@[k - 1].owner == p);
                        }
                    }
                    if exists|j: int| 0 <= j < k && (#[trigger] records@[j]).owner == p {
                        let j = choose|j: int| 0 <= j < k && (#[trigger] records@[j]).owner == p;
                        if j < k - 1 {
                            assert(0 <= j < k - 1 && records@[j].owner == p);
                            assert(pre.spec_registered(p));
                        } else {
                            assert(records@[k - 1].owner == p);
                        }
                    }
                }
                assert forall|p: Principal, t: int| #![trigger self.spec_holds(p, t)]
                    self.spec_holds(p, t) == (s0.spec_holds(p, t) || exists|j: int|
                        0 <= j < k && (#[trigger] records@[j]).owner == p && t
                            == s0.tokens@.len() + j) by {
                    if self.spec_holds(p, t) {
                        if pre.spec_holds(p, t) {
                            if !s0.spec_holds(p, t) {
                                let j = choose|j: int|
                                    0 <= j < k - 1 && (#[trigger] records@[j]).owner == p && t
                                        == s0.tokens@.len() + j;
                                assert(records@[j].owner == p && t == s0.tokens@.len() + j);
                            }
                        } else {
                            assert(records@[k - 1].owner == p && t == s0.tokens@.len() + (k - 1));
                        }
                    }
                    if exists|j: int|
                        0 <= j < k && (#[trigger] records@[j]).owner == p && t == s0.tokens@.len()
                            + j {
                        let j = choose|j: int|
                            0 <= j < k && (#[trigger] records@[j]).owner == p && t
                                == s0.tokens@.len() + j;
                        if j < k - 1 {
                            assert(0 <= j < k - 1 && records@[j].owner == p && t
                                == s0.tokens@.len() + j);
                            assert(pre.spec_holds(p, t));
                        } else {
                            assert(p == records@[k - 1].owner && t == s0.tokens@.len() + (k - 1));
                        }
                    }
                }
                if s0.config.identifier_mode == NFTIdentifierMode::Hash {
                    assert forall|j: int|
                        k <= j < len implies !spec_dup_ident(
                        *self,
                        spec_content_hash((#[trigger] records@[j]).metadata@),
                    ) by {
                        let hj = spec_content_hash(records@[j].metadata@);
                        if spec_dup_ident(*self, hj) {
                            let t = choose|t: int|
                                0 <= t < self.tokens@.len() && !self.tokens@[t].burned
                                    && self.tokens@[t].ident == hj;
                            if t < pre.tokens@.len() {
                                assert(self.tokens@[t] == pre.tokens@[t]);
                                assert(spec_dup_ident(pre, hj));
                            } else {
                                assert(self.tokens@[t].ident == spec_content_hash(
                                    records@[k - 1].metadata@,
                                ));
                            }
                        }
                    }
                }
            }
        }
        // advance the durable counter; reaching the target completes it
        let new_progress = progress + len as u64;
        let done = new_progress == target;
        let ghost smid = *self;
        self.migration = if done {
            MigrationState::Complete
        } else {
            MigrationState::InProgress { prior_cap, target, progress: new_progress, convention }
        };
        proof {
            assert(self.owners@ == smid.owners@);
            assert(self.tokens@ == smid.tokens@);
            assert forall|p: Principal| #![trigger self.spec_registered(p)]
                self.spec_registered(p) == smid.spec_registered(p) by {
                if self.spec_registered(p) {
                    let w = choose|w: int|
                        0 <= w < self.owners@.len() && self.owners@[w].principal == p;
                    assert(smid.owners@[w].principal == p);
                }
                if smid.spec_registered(p) {
                    let w = choose|w: int|
                        0 <= w < smid.owners@.len() && smid.owners@[w].principal == p;
                    assert(self.owners@[w].principal == p);
                }
            }
            assert forall|p: Principal, t: int| #![trigger self.spec_holds(p, t)]
                self.spec_holds(p, t) == smid.spec_holds(p, t) by {
                assert(crate::registry::spec_holds_in(self.owners@, p, t)
                    == crate::registry::spec_holds_in(smid.owners@, p, t));
            }
            assert(self.tokens@.subrange(0, s0.tokens@.len() as int) == s0.tokens@);
        }
        Ok(done)
    }
}

} // verus!
