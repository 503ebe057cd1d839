use vstd::prelude::*;
use crate::config::{CollectionConfig, NFTIdentifierMode, NFTMetadataKind};
use crate::pagetable::{PAGE_WIDTH, PageTable};
use crate::principal::Principal;

verus! {

/// One validated metadata blob a token carries, tagged by its schema kind.
#[derive(Debug)]
pub struct MetadataEntry {
    pub kind: NFTMetadataKind,
    pub blob: Vec<u8>,
}

/// A metadata list as (kind, bytes) pairs.
pub open spec fn spec_md_view(v: Seq<MetadataEntry>) -> Seq<(NFTMetadataKind, Seq<u8>)> {
    v.map_values(|e: MetadataEntry| (e.kind, e.blob@))
}

/// One registry row: everything the registry knows about a minted token.
/// Rows are never deleted; burning sets the flag and keeps the row so a
/// second burn can be told apart from an unknown token.
#[derive(Debug)]
pub struct TokenRecord {
    pub owner: Principal,
    pub issuer: Principal,
    pub metadata: Vec<MetadataEntry>,
    pub burned: bool,
    /// External identifier: the index itself in ordinal mode, the metadata
    /// content hash in hash mode.
    pub ident: u64,
    /// Single approved spender, cleared on transfer, re-approval and burn.
    pub approved: Option<Principal>,
}

/// One registered owner and their ownership index.
#[derive(Debug)]
pub struct OwnerEntry {
    pub principal: Principal,
    pub table: PageTable,
}

/// One granted operator approval, stored once per pair whatever the owner
/// holds.
#[derive(Clone, Copy, PartialEq, Eq, Structural, Debug)]
pub struct OperatorPair {
    pub owner: Principal,
    pub operator: Principal,
}

/// Where a migration stands.
#[derive(Clone, Copy, PartialEq, Eq, Structural, Debug)]
pub enum MigrationState {
    NotStarted,
    InProgress {
        /// Supply cap of the prior deployment.
        prior_cap: u64,
        /// Tokens the prior deployment had minted; migration finishes when
        /// progress reaches this.
        target: u64,
        /// Tokens copied so far.
        progress: u64,
        /// Named-key convention of the prior deployment.
        convention: NamedKeyConventionMode,
    },
    Complete,
}

/// Which named-key layout the prior deployed version used.
#[derive(Clone, Copy, PartialEq, Eq, Structural, Debug)]
pub enum NamedKeyConventionMode {
    DerivedFromCollectionName,
    V1_0Standard,
    V1_0Custom,
}

/// The record a mutating call hands back for the event sink.
#[derive(Clone, Copy, PartialEq, Eq, Structural, Debug)]
pub enum Event {
    Mint { recipient: Principal, token_index: u64 },
    Burn { owner: Principal, token_index: u64 },
    Transfer { from: Principal, to: Principal, token_index: u64 },
    Approval { owner: Principal, spender: Option<Principal>, token_index: u64 },
    ApprovalForAll { owner: Principal, operator: Principal },
    RevokedForAll { owner: Principal, operator: Principal },
    MetadataUpdated { token_index: u64, kind: NFTMetadataKind },
}

/// Sum of the per-owner running counts.
pub open spec fn spec_sum_counts(owners: Seq<OwnerEntry>) -> int
    decreases owners.len(),
{
    if owners.len() == 0 {
        0
    } else {
        spec_sum_counts(owners.drop_last()) + owners.last().table.spec_count() as int
    }
}

/// Number of non-burned rows.
pub open spec fn spec_live_count(tokens: Seq<TokenRecord>) -> int
    decreases tokens.len(),
{
    if tokens.len() == 0 {
        0
    } else {
        spec_live_count(tokens.drop_last()) + if tokens.last().burned {
            0int
        } else {
            1int
        }
    }
}

/// The balance an owner list assigns to `p`: the running count of the entry
/// whose principal is `p`, or zero when there is none.
pub open spec fn spec_balance_in(owners: Seq<OwnerEntry>, p: Principal) -> int
    decreases owners.len(),
{
    if owners.len() == 0 {
        0
    } else if owners.last().principal == p {
        owners.last().table.spec_count() as int
    } else {
        spec_balance_in(owners.drop_last(), p)
    }
}

/// Whether the owner list records `p` as holding token index `t`.
pub open spec fn spec_holds_in(owners: Seq<OwnerEntry>, p: Principal, t: int) -> bool
    decreases owners.len(),
{
    if owners.len() == 0 {
        false
    } else if owners.last().principal == p {
        owners.last().table.spec_bit(t)
    } else {
        spec_holds_in(owners.drop_last(), p, t)
    }
}

/// The one registry instance: configuration, token rows, per-owner ownership
/// index, operator approvals and migration state, all kept consistent by
/// `wf`.
#[derive(Debug)]
pub struct Registry {
    pub config: CollectionConfig,
    pub tokens: Vec<TokenRecord>,
    pub owners: Vec<OwnerEntry>,
    pub operators: Vec<OperatorPair>,
    pub migration: MigrationState,
}

impl Registry {
    /// True when `p` has been registered (holds an ownership index).
    pub open spec fn spec_registered(self, p: Principal) -> bool {
        exists|i: int| 0 <= i < self.owners@.len() && self.owners@[i].principal == p
    }

    /// The balance the registry reports for `p`.
    pub open spec fn spec_balance(self, p: Principal) -> int {
        spec_balance_in(self.owners@, p)
    }

    /// True when the ownership index records `p` as holding index `t`.
    pub open spec fn spec_holds(self, p: Principal, t: int) -> bool {
        spec_holds_in(self.owners@, p, t)
    }

    /// True when `operator` is blanket-approved by `owner`.
    pub open spec fn spec_is_operator(self, owner: Principal, operator: Principal) -> bool {
        exists|i: int|
            0 <= i < self.operators@.len() && self.operators@[i] == (OperatorPair {
                owner,
                operator,
            })
    }

    /// Whether `caller` may act on token `t`: the owner, the approved
    /// spender, or a blanket-approved operator of the owner.
    pub open spec fn spec_can_transfer(self, caller: Principal, t: int) -> bool {
        ||| self.tokens@[t].owner == caller
        ||| self.tokens@[t].approved == Some(caller)
        ||| self.spec_is_operator(self.tokens@[t].owner, caller)
    }

    /// The registry invariant. Every mutating operation preserves it.
    pub open spec fn wf(self) -> bool {
        // configuration stays valid, and minting never passed the cap
        &&& self.config.spec_valid()
        &&& self.tokens@.len() <= self.config.total_token_supply
        // owners are registered once
        &&& forall|i: int, j: int|
            0 <= i < j < self.owners@.len() ==> self.owners@[i].principal
                != self.owners@[j].principal
        // every ownership index is internally sound and its pages cover no
        // more than the minted range
        &&& forall|oi: int|
            0 <= oi < self.owners@.len() ==> (#[trigger] self.owners@[oi].table).wf()
        &&& forall|oi: int|
            0 <= oi < self.owners@.len() ==> (#[trigger] self.owners@[oi].table).spec_page_count()
                <= (self.tokens@.len() as int) / (PAGE_WIDTH as int) + 1
        // the ownership bits agree exactly with the token rows: for every
        // live token the owner's bit for it is set and nobody else's is, and
        // burned or unminted indices are set nowhere
        &&& forall|oi: int, t: int|
            0 <= oi < self.owners@.len() ==> (#[trigger] self.owners@[oi].table.spec_bit(t)) == (0
                <= t < self.tokens@.len() && !self.tokens@[t].burned && self.tokens@[t].owner
                == self.owners@[oi].principal)
        // every token owner with a live token is registered
        &&& forall|t: int|
            0 <= t < self.tokens@.len() && !(#[trigger] self.tokens@[t]).burned
                ==> self.spec_registered(self.tokens@[t].owner)
        // balances sum to the live token count
        &&& spec_sum_counts(self.owners@) == spec_live_count(self.tokens@)
        // a burned token carries no approval
        &&& forall|t: int|
            0 <= t < self.tokens@.len() && (#[trigger] self.tokens@[t]).burned
                ==> self.tokens@[t].approved is None
        // operator approvals are stored once per pair
        &&& forall|i: int, j: int|
            0 <= i < j < self.operators@.len() ==> self.operators@[i] != self.operators@[j]
        // ordinal identifiers are the indices themselves
        &&& (self.config.identifier_mode == NFTIdentifierMode::Ordinal ==> forall|t: int|
            0 <= t < self.tokens@.len() ==> (#[trigger] self.tokens@[t]).ident == t)
        // hash identifiers are unique among live tokens
        &&& (self.config.identifier_mode == NFTIdentifierMode::Hash ==> forall|i: int, j: int|
            0 <= i < j < self.tokens@.len() && !self.tokens@[i].burned && !self.tokens@[j].burned
                ==> self.tokens@[i].ident != self.tokens@[j].ident)
    }

    /// Number of tokens ever minted (burned rows included).
    pub fn number_of_minted_tokens(&self) -> (r: u64)
        requires
            self.wf(),
        ensures
            r == self.tokens@.len(),
    {
        proof {
            assert(self.tokens@.len() <= u64::MAX);
        }
        self.tokens.len() as u64
    }

    /// Index of the owner entry for `p`, if registered.
    pub(crate) fn find_owner(&self, p: &Principal) -> (r: Option<usize>)
        ensures
            match r {
                Some(i) => i < self.owners@.len() && self.owners@[i as int].principal == *p,
                None => !self.spec_registered(*p),
            },
    {
        let mut i: usize = 0;
        while i < self.owners.len()
            invariant
                i <= self.owners@.len(),
                forall|k: int| 0 <= k < i ==> self.owners@[k].principal != *p,
            decreases self.owners@.len() - i,
        {
            if self.owners[i].principal == *p {
                return Some(i);
            }
            i += 1;
        }
        None
    }

    /// Reports whether `p` has been registered.
    pub fn is_registered(&self, p: &Principal) -> (r: bool)
        ensures
            r == self.spec_registered(*p),
    {
        self.find_owner(p).is_some()
    }

    /// The number of tokens `owner` currently holds; zero for a principal
    /// that was never registered. Answered from the running counter, never
    /// by scanning pages.
    pub fn balance_of(&self, owner: &Principal) -> (r: u64)
        requires
            self.wf(),
        ensures
            r == self.spec_balance(*owner),
    {
        match self.find_owner(owner) {
            Some(i) => {
                proof {
                    lemma_balance_at(self.owners@, i as int, *owner);
                }
                self.owners[i].table.count()
            },
            None => {
                proof {
                    lemma_balance_absent(self.owners@, *owner);
                }
                0
            },
        }
    }

    /// Reports whether `owner`'s ownership bit for `index` is set.
    pub fn owner_holds(&self, owner: &Principal, index: u64) -> (r: bool)
        requires
            self.wf(),
            index <= usize::MAX,
        ensures
            r == self.spec_holds(*owner, index as int),
    {
        match self.find_owner(owner) {
            Some(i) => {
                proof {
                    lemma_holds_at(self.owners@, i as int, *owner, index as int);
                }
                self.owners[i].table.contains(index as usize)
            },
            None => {
                proof {
                    lemma_holds_absent(self.owners@, *owner, index as int);
                }
                false
            },
        }
    }

    /// Reports whether `operator` holds a blanket approval from `owner`.
    pub fn is_approved_for_all(&self, owner: &Principal, operator: &Principal) -> (r: bool)
        ensures
            r == self.spec_is_operator(*owner, *operator),
    {
        let mut i: usize = 0;
        while i < self.operators.len()
            invariant
                i <= self.operators@.len(),
                forall|k: int|
                    0 <= k < i ==> self.operators@[k] != (OperatorPair {
                        owner: *owner,
                        operator: *operator,
                    }),
            decreases self.operators@.len() - i,
        {
            if self.operators[i].owner == *owner && self.operators[i].operator == *operator {
                return true;
            }
            i += 1;
        }
        false
    }

    /// Registers `owner`, allocating page zero of their ownership index.
    /// Idempotent: registering a known owner changes nothing at all.
    pub fn register_owner(&mut self, owner: &Principal)
        requires
            old(self).wf(),
        ensures
            final(self).wf(),
            final(self).spec_registered(*owner),
            old(self).spec_registered(*owner) ==> *final(self) == *old(self),
            final(self).config == old(self).config,
            final(self).tokens@ == old(self).tokens@,
            final(self).operators@ == old(self).operators@,
            final(self).migration == old(self).migration,
            forall|p: Principal| final(self).spec_balance(p) == old(self).spec_balance(p),
            forall|p: Principal, t: int|
                final(self).spec_holds(p, t) == old(self).spec_holds(p, t),
            forall|p: Principal|
                final(self).spec_registered(p) == (old(self).spec_registered(p) || p == *owner),
    {
        match self.find_owner(owner) {
            Some(_) => {
            },
            None => {
                let entry = OwnerEntry { principal: *owner, table: PageTable::new() };
                self.owners.push(entry);
                proof {
                    let pre = old(self).owners@;
                    let post = self.owners@;
                    assert(post.drop_last() =~= pre);
                    assert(post.last() == post[post.len() - 1]);
                    assert(spec_sum_counts(post) == spec_sum_counts(pre));
                    assert(self.spec_registered(*owner)) by {
                        assert(post[post.len() - 1].principal == *owner);
                    }
                    assert forall|p: Principal|
                        final(self).spec_balance(p) == old(self).spec_balance(p) by {
                        if p == *owner {
                            lemma_balance_absent(pre, p);
                        }
                    }
                    assert forall|p: Principal, t: int|
                        final(self).spec_holds(p, t) == old(self).spec_holds(p, t) by {
                        if p == *owner {
                            lemma_holds_absent(pre, p, t);
                        }
                    }
                    assert forall|p: Principal|
                        final(self).spec_registered(p) == (old(self).spec_registered(p) || p
                            == *owner) by {
                        if final(self).spec_registered(p) {
                            let i = choose|i: int|
                                0 <= i < post.len() && post[i].principal == p;
                            if i < pre.len() {
                                assert(old(self).spec_registered(p));
                            }
                        }
                        if old(self).spec_registered(p) {
                            let i = choose|i: int| 0 <= i < pre.len() && pre[i].principal == p;
                            assert(post[i].principal == p);
                        }
                        if p == *owner {
                            assert(post[post.len() - 1].principal == p);
                        }
                    }
                }
            },
        }
    }

    /// Grants or revokes `operator`'s blanket approval over every token
    /// `caller` holds now or later. Idempotent, and the work done never
    /// depends on how many tokens the caller holds: only the pair table is
    /// touched.
    pub fn approve_all(&mut self, caller: &Principal, operator: &Principal, approved: bool) -> (r:
        Event)
        requires
            old(self).wf(),
        ensures
            final(self).wf(),
            final(self).spec_is_operator(*caller, *operator) == approved,
            forall|o: Principal, q: Principal|
                o != *caller || q != *operator ==> final(self).spec_is_operator(o, q) == old(
                    self,
                ).spec_is_operator(o, q),
            final(self).config == old(self).config,
            final(self).tokens@ == old(self).tokens@,
            final(self).owners@ == old(self).owners@,
            final(self).migration == old(self).migration,
            r == (if approved {
                Event::ApprovalForAll { owner: *caller, operator: *operator }
            } else {
                Event::RevokedForAll { owner: *caller, operator: *operator }
            }),
    {
        let pair = OperatorPair { owner: *caller, operator: *operator };
        let mut at: Option<usize> = None;
        let mut i: usize = 0;
        while i < self.operators.len()
            invariant
                i <= self.operators@.len(),
                match at {
                    Some(k) => k < i && self.operators@[k as int] == pair,
                    None => forall|k: int| 0 <= k < i ==> self.operators@[k] != pair,
                },
            decreases self.operators@.len() - i,
        {
            if self.operators[i].owner == pair.owner && self.operators[i].operator
                == pair.operator {
                if at.is_none() {
                    at = Some(i);
                }
            }
            i += 1;
        }
        let ghost pre = self.operators@;
        match (at, approved) {
            (None, true) => {
                self.operators.push(pair);
                proof {
                    assert(self.operators@[pre.len() as int] == pair);
                    assert forall|o: Principal, q: Principal|
                        o != *caller || q != *operator implies final(self).spec_is_operator(o, q)
                        == old(self).spec_is_operator(o, q) by {
                        let want = OperatorPair { owner: o, operator: q };
                        if final(self).spec_is_operator(o, q) {
                            let k = choose|k: int|
                                0 <= k < self.operators@.len() && self.operators@[k] == want;
                            assert(k < pre.len());
                        }
                        if old(self).spec_is_operator(o, q) {
                            let k = choose|k: int| 0 <= k < pre.len() && pre[k] == want;
                            assert(self.operators@[k] == want);
                        }
                    }
                }
            },
            (Some(k), false) => {
                self.operators.remove(k);
                proof {
                    assert forall|o: Principal, q: Principal|
                        final(self).spec_is_operator(o, q) == (old(self).spec_is_operator(o, q)
                            && (OperatorPair { owner: o, operator: q }) != pair) by {
                        let want = OperatorPair { owner: o, operator: q };
                        if final(self).spec_is_operator(o, q) {
                            let m = choose|m: int|
                                0 <= m < self.operators@.len() && self.operators@[m] == want;
                            if m < k as int {
                                assert(pre[m] == want);
                            } else {
                                assert(pre[m + 1] == want);
                            }
                        }
                        if old(self).spec_is_operator(o, q) && want != pair {
                            let m = choose|m: int| 0 <= m < pre.len() && pre[m] == want;
                            if m < k as int {
                                assert(self.operators@[m] == want);
                            } else {
                                assert(m != k as int);
                                assert(self.operators@[m - 1] == want);
                            }
                        }
                    }
                    assert(!final(self).spec_is_operator(*caller, *operator));
                }
            },
            _ => {
                proof {
                    if approved {
                        assert(self.spec_is_operator(*caller, *operator));
                    } else {
                        assert(!self.spec_is_operator(*caller, *operator));
                    }
                }
            },
        }
        if approved {
            Event::ApprovalForAll { owner: *caller, operator: *operator }
        } else {
            Event::RevokedForAll { owner: *caller, operator: *operator }
        }
    }
}

/// With distinct principals, the balance for `p` is the running count at its
/// entry.
pub proof fn lemma_balance_at(owners: Seq<OwnerEntry>, i: int, p: Principal)
    requires
        0 <= i < owners.len(),
        owners[i].principal == p,
        forall|a: int, b: int|
            0 <= a < b < owners.len() ==> owners[a].principal != owners[b].principal,
    ensures
        spec_balance_in(owners, p) == owners[i].table.spec_count() as int,
    decreases owners.len(),
{
    if i == owners.len() - 1 {
    } else {
        assert(owners.last().principal != p);
        lemma_balance_at(owners.drop_last(), i, p);
    }
}

/// An unregistered principal has balance zero.
pub proof fn lemma_balance_absent(owners: Seq<OwnerEntry>, p: Principal)
    requires
        forall|k: int| 0 <= k < owners.len() ==> owners[k].principal != p,
    ensures
        spec_balance_in(owners, p) == 0,
    decreases owners.len(),
{
    if owners.len() > 0 {
        lemma_balance_absent(owners.drop_last(), p);
    }
}

/// With distinct principals, holding is decided at `p`'s entry.
pub proof fn lemma_holds_at(owners: Seq<OwnerEntry>, i: int, p: Principal, t: int)
    requires
        0 <= i < owners.len(),
        owners[i].principal == p,
        forall|a: int, b: int|
            0 <= a < b < owners.len() ==> owners[a].principal != owners[b].principal,
    ensures
        spec_holds_in(owners, p, t) == owners[i].table.spec_bit(t),
    decreases owners.len(),
{
    if i == owners.len() - 1 {
    } else {
        assert(owners.last().principal != p);
        lemma_holds_at(owners.drop_last(), i, p, t);
    }
}

/// An unregistered principal holds nothing.
pub proof fn lemma_holds_absent(owners: Seq<OwnerEntry>, p: Principal, t: int)
    requires
        forall|k: int| 0 <= k < owners.len() ==> owners[k].principal != p,
    ensures
        !spec_holds_in(owners, p, t),
    decreases owners.len(),
{
    if owners.len() > 0 {
        lemma_holds_absent(owners.drop_last(), p, t);
    }
}

/// Updating an entry without changing its principal redirects only that
/// principal's balance.
pub proof fn lemma_balance_update(owners: Seq<OwnerEntry>, i: int, e: OwnerEntry, p: Principal)
    requires
        0 <= i < owners.len(),
        e.principal == owners[i].principal,
        forall|a: int, b: int|
            0 <= a < b < owners.len() ==> owners[a].principal != owners[b].principal,
    ensures
        spec_balance_in(owners.update(i, e), p) == (if p == owners[i].principal {
            e.table.spec_count() as int
        } else {
            spec_balance_in(owners, p)
        }),
    decreases owners.len(),
{
    let up = owners.update(i, e);
    if i == owners.len() - 1 {
        assert(up.drop_last() =~= owners.drop_last());
    } else {
        assert(up.drop_last() =~= owners.drop_last().update(i, e));
        assert(up.last() == owners.last());
        if owners.last().principal == p {
            assert(owners[i].principal != p);
        } else {
            lemma_balance_update(owners.drop_last(), i, e, p);
        }
    }
}

/// Updating an entry without changing its principal redirects only that
/// principal's holdings.
pub proof fn lemma_holds_update(owners: Seq<OwnerEntry>, i: int, e: OwnerEntry, p: Principal, t: int)
    requires
        0 <= i < owners.len(),
        e.principal == owners[i].principal,
        forall|a: int, b: int|
            0 <= a < b < owners.len() ==> owners[a].principal != owners[b].principal,
    ensures
        spec_holds_in(owners.update(i, e), p, t) == (if p == owners[i].principal {
            e.table.spec_bit(t)
        } else {
            spec_holds_in(owners, p, t)
        }),
    decreases owners.len(),
{
    let up = owners.update(i, e);
    if i == owners.len() - 1 {
        assert(up.drop_last() =~= owners.drop_last());
    } else {
        assert(up.drop_last() =~= owners.drop_last().update(i, e));
        assert(up.last() == owners.last());
        if owners.last().principal == p {
            assert(owners[i].principal != p);
        } else {
            lemma_holds_update(owners.drop_last(), i, e, p, t);
        }
    }
}

/// Updating one entry moves the sum by the count difference.
pub proof fn lemma_sum_update(owners: Seq<OwnerEntry>, i: int, e: OwnerEntry)
    requires
        0 <= i < owners.len(),
    ensures
        spec_sum_counts(owners.update(i, e)) == spec_sum_counts(owners) - owners[i].table.spec_count()
            + e.table.spec_count(),
    decreases owners.len(),
{
    let up = owners.update(i, e);
    if i == owners.len() - 1 {
        assert(up.drop_last() =~= owners.drop_last());
    } else {
        assert(up.drop_last() =~= owners.drop_last().update(i, e));
        assert(up.last() == owners.last());
        lemma_sum_update(owners.drop_last(), i, e);
    }
}

/// The sum dominates every single count.
pub proof fn lemma_sum_ge(owners: Seq<OwnerEntry>, i: int)
    requires
        0 <= i < owners.len(),
    ensures
        spec_sum_counts(owners) >= owners[i].table.spec_count(),
    decreases owners.len(),
{
    if i == owners.len() - 1 {
        lemma_sum_nonneg(owners.drop_last());
    } else {
        lemma_sum_ge(owners.drop_last(), i);
    }
}

pub proof fn lemma_sum_nonneg(owners: Seq<OwnerEntry>)
    ensures
        spec_sum_counts(owners) >= 0,
    decreases owners.len(),
{
    if owners.len() > 0 {
        lemma_sum_nonneg(owners.drop_last());
    }
}

/// Appending a row moves the live count by one when the row is live.
pub proof fn lemma_live_push(tokens: Seq<TokenRecord>, rec: TokenRecord)
    ensures
        spec_live_count(tokens.push(rec)) == spec_live_count(tokens) + if rec.burned {
            0int
        } else {
            1int
        },
{
    assert(tokens.push(rec).drop_last() =~= tokens);
    assert(tokens.push(rec).last() == rec);
}

/// Updating a row moves the live count by the burned-flag difference.
pub proof fn lemma_live_update(tokens: Seq<TokenRecord>, i: int, rec: TokenRecord)
    requires
        0 <= i < tokens.len(),
    ensures
        spec_live_count(tokens.update(i, rec)) == spec_live_count(tokens) - (if tokens[i].burned {
            0int
        } else {
            1int
        }) + (if rec.burned {
            0int
        } else {
            1int
        }),
    decreases tokens.len(),
{
    let up = tokens.update(i, rec);
    if i == tokens.len() - 1 {
        assert(up.drop_last() =~= tokens.drop_last());
    } else {
        assert(up.drop_last() =~= tokens.drop_last().update(i, rec));
        assert(up.last() == tokens.last());
        lemma_live_update(tokens.drop_last(), i, rec);
    }
}

/// The live count never exceeds the row count.
pub proof fn lemma_live_le_len(tokens: Seq<TokenRecord>)
    ensures
        0 <= spec_live_count(tokens) <= tokens.len(),
    decreases tokens.len(),
{
    if tokens.len() > 0 {
        lemma_live_le_len(tokens.drop_last());
    }
}

} // verus!
