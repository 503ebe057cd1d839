use nft_registry::config::{
    CollectionConfig, MetadataMutability, MintingMode, NFTIdentifierMode, NFTMetadataKind,
    OwnerReverseLookupMode, OwnershipMode,
};
use nft_registry::migration::PriorRecord;
use nft_registry::principal::{Principal, TokenIdentifier};
use nft_registry::registry::{MetadataEntry, MigrationState, NamedKeyConventionMode, Registry};

const DEFAULT_ACCOUNT: Principal = Principal::Account(100);

fn raw_config(supply: u64, ownership: OwnershipMode) -> CollectionConfig {
    CollectionConfig {
        total_token_supply: supply,
        identifier_mode: NFTIdentifierMode::Ordinal,
        metadata_mutability: MetadataMutability::Immutable,
        ownership_mode: ownership,
        minting_mode: MintingMode::Public,
        reverse_lookup_mode: OwnerReverseLookupMode::NoLookUp,
        required_kinds: vec![NFTMetadataKind::Raw],
        optional_kinds: vec![],
        allow_minting: true,
        installer: DEFAULT_ACCOUNT,
        minting_acl: vec![],
    }
}

#[test]
fn should_not_be_able_to_reinvoke_migrate_entrypoint() {
    let mut registry = Registry::install(raw_config(100, OwnershipMode::Minter))
        .expect("install must succeed");

    registry
        .migrate(100u64, 0u64, NamedKeyConventionMode::V1_0Standard, None)
        .expect("first migration must succeed");
    assert_eq!(registry.migration, MigrationState::Complete);

    // Once migration completed, re-invoking the migrate entry point
    // should cause an error to be returned.
    let err = registry
        .migrate(100u64, 0u64, NamedKeyConventionMode::V1_0Standard, None)
        .expect_err("must have error");
    assert_eq!(err.code(), 126u16, "must have previously migrated error");
}

#[test]
fn should_not_migrate_contracts_with_zero_token_issuance() {
    let mut registry = Registry::install(raw_config(100, OwnershipMode::Minter))
        .expect("install must succeed");
    let err = registry
        .migrate(0u64, 0u64, NamedKeyConventionMode::V1_0Standard, None)
        .expect_err("must have error");
    assert_eq!(err.code(), 122u16, "cannot upgrade when issuance is 0");
}

#[test]
fn should_upgrade_with_custom_named_keys() {
    let mut registry = Registry::install(raw_config(1000, OwnershipMode::Minter))
        .expect("install must succeed");

    let number_of_tokens_pre_migration = 3usize;
    registry
        .migrate(
            1000u64,
            number_of_tokens_pre_migration as u64,
            NamedKeyConventionMode::V1_0Custom,
            None,
        )
        .expect("migration entry must succeed");

    let mut records: Vec<PriorRecord> = Vec::new();
    for _ in 0..number_of_tokens_pre_migration {
        records.push(PriorRecord { owner: DEFAULT_ACCOUNT, metadata: b"".to_vec() });
    }
    let done = registry.migrate_step(records).expect("migration step must succeed");
    assert!(done);
    assert_eq!(registry.migration, MigrationState::Complete);

    // every prior owner-to-token relationship is preserved exactly
    let owned = registry.owner_tokens(&DEFAULT_ACCOUNT);
    assert_eq!(owned, vec![0usize, 1, 2]);
    for id in 0..3u64 {
        assert_eq!(
            registry.owner_of(&TokenIdentifier::Index(id)).expect("token must resolve"),
            DEFAULT_ACCOUNT
        );
    }

    // a further improper migration attempt is rejected
    let err = registry
        .migrate(1000u64, 3u64, NamedKeyConventionMode::V1_0Standard, None)
        .expect_err("re-entry after completion must fail");
    assert_eq!(err.code(), 126u16);
}

#[test]
fn should_not_upgrade_with_larger_total_token_supply() {
    let mut config = raw_config(100, OwnershipMode::Transferable);
    config.required_kinds = vec![NFTMetadataKind::CEP78];
    config.identifier_mode = NFTIdentifierMode::Hash;
    let mut registry = Registry::install(config).expect("install must succeed");

    let err = registry
        .migrate(100u64, 0u64, NamedKeyConventionMode::V1_0Standard, Some(1000u64))
        .expect_err("must have error");
    assert_eq!(
        err.code(),
        150u16,
        "cannot upgrade when new total token supply is larger than pre-migration one"
    );
}

#[test]
fn migration_steps_resume_from_durable_progress() {
    let mut registry = Registry::install(raw_config(100, OwnershipMode::Minter))
        .expect("install must succeed");
    registry
        .migrate(100u64, 2u64, NamedKeyConventionMode::V1_0Standard, Some(50u64))
        .expect("migration entry must succeed");
    assert_eq!(registry.config.total_token_supply, 50);

    let first = vec![PriorRecord { owner: Principal::Account(1), metadata: b"".to_vec() }];
    let done = registry.migrate_step(first).expect("first step must succeed");
    assert!(!done, "one of two records leaves the migration in progress");

    let second = vec![PriorRecord { owner: Principal::Account(2), metadata: b"".to_vec() }];
    let done = registry.migrate_step(second).expect("second step must succeed");
    assert!(done, "reaching the prior count completes the migration");

    let err = registry.migrate_step(vec![]).expect_err("a step after completion must fail");
    assert_eq!(err.code(), 126u16);

    assert_eq!(registry.balance_of(&Principal::Account(1)), 1);
    assert_eq!(registry.balance_of(&Principal::Account(2)), 1);
}

#[test]
fn upgrade_config_can_only_shrink_the_cap() {
    let mut registry = Registry::install(raw_config(100, OwnershipMode::Minter))
        .expect("install must succeed");
    registry
        .migrate(100u64, 1u64, NamedKeyConventionMode::V1_0Standard, None)
        .expect("migration entry must succeed");

    let err = registry.upgrade_config(101u64).expect_err("a larger cap must be rejected");
    assert_eq!(err.code(), 150u16);

    registry.upgrade_config(40u64).expect("a smaller cap is accepted");
    assert_eq!(registry.config.total_token_supply, 40);
}
