use vstd::prelude::*;
use crate::config::NFTIdentifierMode;
use crate::error::Error;
use crate::principal::{Principal, TokenIdentifier};
use crate::registry::{
    Registry, TokenRecord, lemma_balance_at, spec_live_count, spec_sum_counts,
};
use crate::registry_ops::{spec_burn_err, spec_mint_err, spec_minter_ok, spec_set_metadata_err};
use crate::registry_read::spec_find_token;
use crate::registry::MetadataEntry;
use crate::registry::MigrationState;
use crate::migration::spec_migrate_err;

verus! {

/// What `spec_find_token` hands back: a row in range carrying the
/// identifier (live when demanded), or the guarantee that no such row
/// exists at or after `from`.
pub proof fn lemma_find_token_char(tokens: Seq<TokenRecord>, h: u64, from: int, live_only: bool)
    requires
        0 <= from <= tokens.len(),
    ensures
        match spec_find_token(tokens, h, from, live_only) {
            Some(t) => from <= t < tokens.len() && tokens[t].ident == h && (live_only
                ==> !tokens[t].burned),
            None => forall|q: int|
                from <= q < tokens.len() ==> !((#[trigger] tokens[q]).ident == h && (!live_only
                    || !tokens[q].burned)),
        },
    decreases tokens.len() - from,
{
    if from < tokens.len() && !(tokens[from].ident == h && (!live_only || !tokens[from].burned)) {
        lemma_find_token_char(tokens, h, from + 1, live_only);
    }
}

/// Two row sequences that agree on identifiers and burned flags resolve
/// identifier searches identically.
pub proof fn lemma_find_token_congruent(
    t1: Seq<TokenRecord>,
    t2: Seq<TokenRecord>,
    h: u64,
    from: int,
    live_only: bool,
)
    requires
        t1.len() == t2.len(),
        forall|q: int|
            0 <= q < t1.len() ==> (#[trigger] t1[q]).ident == t2[q].ident && t1[q].burned
                == t2[q].burned,
    ensures
        spec_find_token(t1, h, from, live_only) == spec_find_token(t2, h, from, live_only),
    decreases t1.len() - from,
{
    if 0 <= from < t1.len() {
        lemma_find_token_congruent(t1, t2, h, from + 1, live_only);
    }
}

/// The ownership books balance: summed over every registered owner, the
/// running balances equal the number of minted, non-burned tokens, and each
/// owner's reported balance is exactly their entry's running count.
pub proof fn lemma_balances_cover_live(s: Registry)
    requires
        s.wf(),
    ensures
        spec_sum_counts(s.owners@) == spec_live_count(s.tokens@),
        forall|oi: int|
            0 <= oi < s.owners@.len() ==> s.spec_balance((#[trigger] s.owners@[oi]).principal)
                == s.owners@[oi].table.spec_count(),
{
    assert forall|oi: int|
        0 <= oi < s.owners@.len() implies s.spec_balance((#[trigger] s.owners@[oi]).principal)
        == s.owners@[oi].table.spec_count() by {
        lemma_balance_at(s.owners@, oi, s.owners@[oi].principal);
    }
}

/// No two live tokens share an external identifier, in either identifier
/// mode.
pub proof fn lemma_live_identifiers_unique(s: Registry)
    requires
        s.wf(),
    ensures
        forall|i: int, j: int|
            0 <= i < j < s.tokens@.len() && !(#[trigger] s.tokens@[i]).burned && !(
            #[trigger] s.tokens@[j]).burned ==> s.tokens@[i].ident != s.tokens@[j].ident,
{
    if s.config.identifier_mode == NFTIdentifierMode::Ordinal {
        assert forall|i: int, j: int|
            0 <= i < j < s.tokens@.len() && !(#[trigger] s.tokens@[i]).burned && !(
            #[trigger] s.tokens@[j]).burned implies s.tokens@[i].ident != s.tokens@[j].ident by {
            assert(s.tokens@[i].ident == i);
            assert(s.tokens@[j].ident == j);
        }
    }
}

/// A mint that would push past the supply cap is always rejected with the
/// supply-exceeded error, and the rejection leaves the registry unchanged
/// (the latter is the error case of `mint`'s contract). Stated for calls
/// that pass the pause switch and the minting-mode gate, which are checked
/// first and mask the supply check otherwise.
pub proof fn lemma_mint_beyond_cap_rejected(
    s: Registry,
    caller: Principal,
    owner: Principal,
    md: Seq<MetadataEntry>,
)
    requires
        s.wf(),
        s.config.allow_minting,
        spec_minter_ok(s.config, caller),
        s.tokens@.len() >= s.config.total_token_supply,
    ensures
        spec_mint_err(s, caller, owner, md) == Some(Error::SupplyExceeded),
{
}

/// After a committed transfer the same identifier still resolves to the
/// same row, which now belongs to the destination with the approval
/// cleared; the source's ownership bit is gone and the destination's is
/// set.
pub proof fn lemma_transfer_resolution(
    s0: Registry,
    s1: Registry,
    ident: TokenIdentifier,
    from: Principal,
    to: Principal,
    t: int,
)
    requires
        s0.wf(),
        s1.wf(),
        s0.spec_resolve(ident) == Some(t),
        !s0.tokens@[t].burned,
        crate::registry_ops::spec_transferred(s0, s1, from, to, t),
    ensures
        s1.spec_resolve(ident) == Some(t),
        s1.tokens@[t].owner == to,
        s1.tokens@[t].approved is None,
        !s1.spec_holds(from, t) || from == to,
        s1.spec_holds(to, t),
{
    match ident {
        TokenIdentifier::Index(i) => {
        },
        TokenIdentifier::Hash(h) => {
            assert forall|q: int|
                0 <= q < s0.tokens@.len() implies (#[trigger] s0.tokens@[q]).ident
                == s1.tokens@[q].ident && s0.tokens@[q].burned == s1.tokens@[q].burned by {
                if q != t {
                    assert(s1.tokens@[q] == s0.tokens@[q]);
                }
            }
            lemma_find_token_congruent(s0.tokens@, s1.tokens@, h, 0, true);
            lemma_find_token_congruent(s0.tokens@, s1.tokens@, h, 0, false);
        },
    }
}

/// Operator approval is blanket authority: whether an operator is approved
/// depends on the pair table alone, never on what the owner holds. Together
/// with `approve_all`'s contract — which touches only the pair table and
/// leaves every token row and ownership page unchanged — this is the
/// flat-cost guarantee for granting and revoking operators.
pub proof fn lemma_operator_approval_ignores_holdings(
    s1: Registry,
    s2: Registry,
    owner: Principal,
    operator: Principal,
)
    requires
        s1.operators@ == s2.operators@,
    ensures
        s1.spec_is_operator(owner, operator) == s2.spec_is_operator(owner, operator),
{
    if s1.spec_is_operator(owner, operator) {
        let i = choose|i: int|
            0 <= i < s1.operators@.len() && s1.operators@[i]
                == (crate::registry::OperatorPair { owner, operator });
        assert(s2.operators@[i] == (crate::registry::OperatorPair { owner, operator }));
    }
    if s2.spec_is_operator(owner, operator) {
        let i = choose|i: int|
            0 <= i < s2.operators@.len() && s2.operators@[i]
                == (crate::registry::OperatorPair { owner, operator });
        assert(s1.operators@[i] == (crate::registry::OperatorPair { owner, operator }));
    }
}

/// In an immutable collection every metadata update is rejected with the
/// forbidden-update error, whoever calls — the true owner included — and
/// whatever token is named.
pub proof fn lemma_immutable_metadata_frozen(
    s: Registry,
    caller: Principal,
    ident: TokenIdentifier,
    kind: crate::config::NFTMetadataKind,
    blob: Seq<u8>,
)
    requires
        s.config.metadata_mutability == crate::config::MetadataMutability::Immutable,
    ensures
        spec_set_metadata_err(s, caller, ident, kind, blob) == Some(
            Error::ForbiddenMetadataUpdate,
        ),
{
}

/// Entering migration on an instance whose migration already completed is
/// always rejected as already migrated.
pub proof fn lemma_remigration_rejected(
    s: Registry,
    prior_cap: u64,
    prior_minted: u64,
    convention: crate::registry::NamedKeyConventionMode,
    new_cap: Option<u64>,
)
    requires
        s.migration == MigrationState::Complete,
    ensures
        spec_migrate_err(s, prior_cap, prior_minted, new_cap) == Some(Error::AlreadyMigrated),
{
}

/// Migrating from a prior deployment that could never issue a token is
/// rejected as zero issuance.
pub proof fn lemma_zero_issuance_rejected(
    s: Registry,
    prior_minted: u64,
    convention: crate::registry::NamedKeyConventionMode,
    new_cap: Option<u64>,
)
    requires
        s.migration == MigrationState::NotStarted,
    ensures
        spec_migrate_err(s, 0, prior_minted, new_cap) == Some(Error::ZeroIssuance),
{
}

/// Migration may never raise the supply cap above the prior one.
pub proof fn lemma_supply_increase_rejected(
    s: Registry,
    prior_cap: u64,
    prior_minted: u64,
    new_cap: u64,
)
    requires
        s.migration == MigrationState::NotStarted,
        prior_cap > 0,
        new_cap > prior_cap,
    ensures
        spec_migrate_err(s, prior_cap, prior_minted, Some(new_cap)) == Some(
            Error::SupplyIncreaseForbidden,
        ),
{
}

/// A migration request that holds or shrinks the cap is accepted whenever
/// the instance is fresh and the prior counts are coherent; what its steps
/// then copy preserves every prior owner-to-token relationship, as
/// `migrate_step`'s contract states row by row.
pub proof fn lemma_migration_accepts_shrink(
    s: Registry,
    prior_cap: u64,
    prior_minted: u64,
    new_cap: u64,
)
    requires
        s.migration == MigrationState::NotStarted,
        0 < new_cap <= prior_cap,
        prior_minted <= prior_cap,
        s.tokens@.len() + prior_minted <= new_cap,
    ensures
        spec_migrate_err(s, prior_cap, prior_minted, Some(new_cap)) is None,
{
}

/// Burning a token a second time is always rejected as already burned, so
/// the error case of `burn`'s contract guarantees the already-cleared
/// ownership bit is never touched again. The requires restate what a
/// successful first burn of row `t` leaves behind.
pub proof fn lemma_double_burn_rejected(
    s0: Registry,
    s1: Registry,
    caller: Principal,
    ident: TokenIdentifier,
    t: int,
)
    requires
        s0.wf(),
        s1.wf(),
        s0.spec_resolve(ident) == Some(t),
        !s0.tokens@[t].burned,
        s1.tokens@.len() == s0.tokens@.len(),
        s1.tokens@[t].burned,
        s1.tokens@[t].ident == s0.tokens@[t].ident,
        forall|q: int| 0 <= q < s0.tokens@.len() && q != t ==> s1.tokens@[q] == s0.tokens@[q],
        s1.config == s0.config,
    ensures
        spec_burn_err(s1, caller, ident) == Some(Error::AlreadyBurned),
{
    match ident {
        TokenIdentifier::Index(i) => {
        },
        TokenIdentifier::Hash(h) => {
            lemma_find_token_char(s0.tokens@, h, 0, true);
            lemma_find_token_char(s0.tokens@, h, 0, false);
            assert(s0.tokens@[t].ident == h);
            // in the burned state no live row carries `h` any more
            assert forall|q: int|
                0 <= q < s1.tokens@.len() && !(#[trigger] s1.tokens@[q]).burned implies
                s1.tokens@[q].ident != h by {
                if q != t {
                    assert(s1.tokens@[q] == s0.tokens@[q]);
                    if s0.tokens@[q].ident == h {
                        assert(!s0.tokens@[q].burned && !s0.tokens@[t].burned);
                    }
                }
            }
            lemma_find_token_char(s1.tokens@, h, 0, true);
            match spec_find_token(s1.tokens@, h, 0, true) {
                Some(q) => {
                    assert(false);
                },
                None => {
                },
            }
            lemma_find_token_char(s1.tokens@, h, 0, false);
            match spec_find_token(s1.tokens@, h, 0, false) {
                Some(q) => {
                    assert(s1.tokens@[q].ident == h);
                    assert(s1.tokens@[q].burned);
                },
                None => {
                    assert(s1.tokens@[t].ident == h);
                    assert(false);
                },
            }
        },
    }
}

} // verus!
