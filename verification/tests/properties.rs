use nft_registry::config::{
    CollectionConfig, MetadataMutability, MintingMode, NFTIdentifierMode, NFTMetadataKind,
    OwnerReverseLookupMode, OwnershipMode,
};
use nft_registry::error::Error;
use nft_registry::hashing::content_hash;
use nft_registry::metadata::validate;
use nft_registry::config::NFTIdentifierMode as WireMode;
use nft_registry::principal::{Principal, TokenIdentifier};
use nft_registry::registry::{MetadataEntry, Registry};

const INSTALLER: Principal = Principal::Account(100);

fn meta_721() -> Vec<u8> {
    b"name=John Doe\nsymbol=abc\ntoken_uri=https://www.barfoo.com".to_vec()
}

fn config(supply: u64) -> CollectionConfig {
    CollectionConfig {
        total_token_supply: supply,
        identifier_mode: NFTIdentifierMode::Ordinal,
        metadata_mutability: MetadataMutability::Mutable,
        ownership_mode: OwnershipMode::Transferable,
        minting_mode: MintingMode::Public,
        reverse_lookup_mode: OwnerReverseLookupMode::NoLookUp,
        required_kinds: vec![NFTMetadataKind::NFT721],
        optional_kinds: vec![],
        allow_minting: true,
        installer: INSTALLER,
        minting_acl: vec![],
    }
}

fn md(kind: NFTMetadataKind, blob: Vec<u8>) -> Vec<MetadataEntry> {
    vec![MetadataEntry { kind, blob }]
}

#[test]
fn balances_sum_to_live_tokens_across_mints_and_burns() {
    let mut registry = Registry::install(config(10)).expect("install must succeed");
    let alice = Principal::Account(1);
    let bob = Principal::Account(2);
    registry.mint(&INSTALLER, &alice, md(NFTMetadataKind::NFT721, meta_721())).unwrap();
    registry.mint(&INSTALLER, &alice, md(NFTMetadataKind::NFT721, meta_721())).unwrap();
    registry.mint(&INSTALLER, &bob, md(NFTMetadataKind::NFT721, meta_721())).unwrap();
    assert_eq!(registry.balance_of(&alice) + registry.balance_of(&bob), 3);

    registry.burn(&alice, &TokenIdentifier::Index(0)).expect("burn must succeed");
    // two live tokens remain, and the sum of all balances says so
    assert_eq!(registry.balance_of(&alice) + registry.balance_of(&bob), 2);
    assert_eq!(registry.number_of_minted_tokens(), 3);
}

#[test]
fn duplicate_hash_identifier_is_rejected() {
    let mut cfg = config(10);
    cfg.identifier_mode = NFTIdentifierMode::Hash;
    cfg.metadata_mutability = MetadataMutability::Immutable;
    let mut registry = Registry::install(cfg).expect("install must succeed");

    registry
        .mint(&INSTALLER, &INSTALLER, md(NFTMetadataKind::NFT721, meta_721()))
        .expect("first mint must succeed");
    let err = registry
        .mint(&INSTALLER, &INSTALLER, md(NFTMetadataKind::NFT721, meta_721()))
        .expect_err("the same metadata hashes to the same identifier");
    assert_eq!(err, Error::DuplicateIdentifier);
    assert_eq!(err.code(), 3u16);

    // the hash identifier resolves to the token
    let h = content_hash(&meta_721());
    assert_eq!(registry.owner_of(&TokenIdentifier::Hash(h)).unwrap(), INSTALLER);
}

#[test]
fn mint_beyond_cap_fails_and_changes_nothing() {
    let mut registry = Registry::install(config(1)).expect("install must succeed");
    registry
        .mint(&INSTALLER, &INSTALLER, md(NFTMetadataKind::NFT721, meta_721()))
        .expect("mint up to the cap must succeed");

    let err = registry
        .mint(&INSTALLER, &INSTALLER, md(NFTMetadataKind::NFT721, meta_721()))
        .expect_err("minting beyond the cap must fail");
    assert_eq!(err, Error::SupplyExceeded);
    assert_eq!(err.code(), 4u16);
    // idempotent rejection: nothing moved
    assert_eq!(registry.number_of_minted_tokens(), 1);
    assert_eq!(registry.balance_of(&INSTALLER), 1);

    let err = registry
        .mint(&INSTALLER, &INSTALLER, md(NFTMetadataKind::NFT721, meta_721()))
        .expect_err("a repeated attempt fails the same way");
    assert_eq!(err, Error::SupplyExceeded);
    assert_eq!(registry.number_of_minted_tokens(), 1);
}

#[test]
fn transfer_moves_ownership_bit_and_clears_approval() {
    let mut registry = Registry::install(config(10)).expect("install must succeed");
    let a = Principal::Account(1);
    let b = Principal::Account(2);
    let spender = Principal::Account(3);
    registry.mint(&INSTALLER, &a, md(NFTMetadataKind::NFT721, meta_721())).unwrap();

    let id = TokenIdentifier::Index(0);
    registry.approve(&a, &id, Some(spender)).expect("approve must succeed");
    assert_eq!(registry.get_approved(&id).unwrap(), Some(spender));

    registry.transfer(&a, &id, &a, &b).expect("transfer must succeed");
    assert_eq!(registry.owner_of(&id).unwrap(), b);
    assert!(!registry.owner_holds(&a, 0));
    assert!(registry.owner_holds(&b, 0));
    // the prior single approval is gone
    assert_eq!(registry.get_approved(&id).unwrap(), None);
}

#[test]
fn double_burn_fails_and_never_clears_twice() {
    let mut registry = Registry::install(config(10)).expect("install must succeed");
    let a = Principal::Account(1);
    registry.mint(&INSTALLER, &a, md(NFTMetadataKind::NFT721, meta_721())).unwrap();
    let id = TokenIdentifier::Index(0);

    registry.burn(&a, &id).expect("first burn must succeed");
    assert!(!registry.owner_holds(&a, 0));
    assert_eq!(registry.balance_of(&a), 0);
    assert!(registry.is_burned(&id).unwrap());

    let err = registry.burn(&a, &id).expect_err("second burn must fail");
    assert_eq!(err, Error::AlreadyBurned);
    assert_eq!(err.code(), 42u16);
    // the already-cleared bit stays exactly as it was
    assert!(!registry.owner_holds(&a, 0));
    assert_eq!(registry.balance_of(&a), 0);
}

#[test]
fn burned_token_cannot_transfer_or_approve() {
    let mut registry = Registry::install(config(10)).expect("install must succeed");
    let a = Principal::Account(1);
    registry.mint(&INSTALLER, &a, md(NFTMetadataKind::NFT721, meta_721())).unwrap();
    let id = TokenIdentifier::Index(0);
    registry.burn(&a, &id).expect("burn must succeed");

    let err = registry.transfer(&a, &id, &a, &Principal::Account(2)).expect_err("burned");
    assert_eq!(err, Error::Burned);
    let err = registry.approve(&a, &id, Some(Principal::Account(2))).expect_err("burned");
    assert_eq!(err, Error::Burned);
}

#[test]
fn transfer_requires_authorization_and_matching_source() {
    let mut registry = Registry::install(config(10)).expect("install must succeed");
    let a = Principal::Account(1);
    let b = Principal::Account(2);
    let stranger = Principal::Account(9);
    registry.mint(&INSTALLER, &a, md(NFTMetadataKind::NFT721, meta_721())).unwrap();
    let id = TokenIdentifier::Index(0);

    let err = registry.transfer(&stranger, &id, &a, &b).expect_err("no authority");
    assert_eq!(err, Error::Unauthorized);

    let err = registry.transfer(&a, &id, &b, &a).expect_err("wrong source owner");
    assert_eq!(err, Error::InvalidTokenOwner);
    assert_eq!(err.code(), 6u16);

    // an approved spender may move the token
    registry.approve(&a, &id, Some(stranger)).unwrap();
    registry.transfer(&stranger, &id, &a, &b).expect("spender transfer must succeed");
    assert_eq!(registry.owner_of(&id).unwrap(), b);
}

#[test]
fn transfer_is_rejected_outside_transferable_mode() {
    let mut cfg = config(10);
    cfg.ownership_mode = OwnershipMode::Minter;
    let mut registry = Registry::install(cfg).expect("install must succeed");
    let a = Principal::Account(1);
    registry.mint(&INSTALLER, &a, md(NFTMetadataKind::NFT721, meta_721())).unwrap();
    let err = registry
        .transfer(&a, &TokenIdentifier::Index(0), &a, &Principal::Account(2))
        .expect_err("tokens are frozen to their minter");
    assert_eq!(err, Error::InvalidOwnershipMode);
}

#[test]
fn unknown_token_errors_are_reported() {
    let registry = Registry::install(config(10)).expect("install must succeed");
    let err = registry.owner_of(&TokenIdentifier::Index(5)).expect_err("nothing minted");
    assert_eq!(err, Error::UnknownToken);
    assert_eq!(err.code(), 2u16);
    // a hash identifier never resolves in ordinal mode
    let err = registry.owner_of(&TokenIdentifier::Hash(1)).expect_err("mode mismatch");
    assert_eq!(err, Error::UnknownToken);
}

#[test]
fn install_rejects_zero_cap_and_overlapping_kind_sets() {
    let mut cfg = config(0);
    let err = Registry::install(cfg).expect_err("zero cap");
    assert_eq!(err, Error::InvalidConfiguration);

    cfg = config(5);
    cfg.optional_kinds = vec![NFTMetadataKind::NFT721];
    let err = Registry::install(cfg).expect_err("a kind cannot be both required and optional");
    assert_eq!(err, Error::InvalidConfiguration);

    cfg = config(5);
    cfg.required_kinds = vec![NFTMetadataKind::NFT721, NFTMetadataKind::NFT721];
    let err = Registry::install(cfg).expect_err("a kind cannot be required twice");
    assert_eq!(err, Error::InvalidConfiguration);
}

#[test]
fn acl_minting_admits_only_listed_principals() {
    let mut cfg = config(10);
    cfg.minting_mode = MintingMode::Acl;
    cfg.minting_acl = vec![Principal::Account(1)];
    let mut registry = Registry::install(cfg).expect("install must succeed");

    let err = registry
        .mint(&Principal::Account(2), &Principal::Account(2), md(
            NFTMetadataKind::NFT721,
            meta_721(),
        ))
        .expect_err("not on the access list");
    assert_eq!(err, Error::InvalidMintingMode);

    registry
        .mint(&Principal::Account(1), &Principal::Account(1), md(
            NFTMetadataKind::NFT721,
            meta_721(),
        ))
        .expect("listed principal may mint");
}

#[test]
fn metadata_validation_rejects_malformed_blobs() {
    // missing mandatory field
    let err = validate(NFTMetadataKind::NFT721, &b"name=a\nsymbol=b".to_vec())
        .expect_err("token_uri missing");
    assert_eq!(err, Error::InvalidMetadata);
    assert_eq!(err.code(), 9u16);
    // unknown field
    let err = validate(
        NFTMetadataKind::NFT721,
        &b"name=a\nsymbol=b\ntoken_uri=c\ncolor=red".to_vec(),
    )
    .expect_err("unknown field");
    assert_eq!(err, Error::InvalidMetadata);
    // duplicate field
    let err = validate(NFTMetadataKind::NFT721, &b"name=a\nname=b\ntoken_uri=c".to_vec())
        .expect_err("duplicate field");
    assert_eq!(err, Error::InvalidMetadata);
    // line without a separator
    let err = validate(NFTMetadataKind::CustomValidated, &b"name".to_vec())
        .expect_err("malformed line");
    assert_eq!(err, Error::InvalidMetadata);
    // the raw kind passes anything through untouched
    assert_eq!(validate(NFTMetadataKind::Raw, &b"".to_vec()).unwrap(), b"".to_vec());
    let ok = validate(NFTMetadataKind::NFT721, &b"name=a\nsymbol=b\ntoken_uri=c".to_vec())
        .expect("a complete blob validates");
    assert_eq!(ok, b"name=a\nsymbol=b\ntoken_uri=c".to_vec());
}

#[test]
fn updating_mutable_metadata_replaces_the_stored_blob() {
    let mut registry = Registry::install(config(10)).expect("install must succeed");
    let a = Principal::Account(1);
    registry.mint(&INSTALLER, &a, md(NFTMetadataKind::NFT721, meta_721())).unwrap();
    let id = TokenIdentifier::Index(0);

    let updated = b"name=Jane Doe\nsymbol=abc\ntoken_uri=https://www.foobar.com".to_vec();
    registry
        .set_metadata(&a, &id, NFTMetadataKind::NFT721, &updated)
        .expect("owner update in mutable mode must succeed");
    assert_eq!(registry.metadata(&id, NFTMetadataKind::NFT721).unwrap(), updated);

    let err = registry
        .set_metadata(&a, &id, NFTMetadataKind::NFT721, &b"name=a".to_vec())
        .expect_err("an invalid replacement blob is rejected");
    assert_eq!(err, Error::InvalidMetadata);
    assert_eq!(registry.metadata(&id, NFTMetadataKind::NFT721).unwrap(), updated);
}

#[test]
fn enumeration_spans_multiple_pages_in_order() {
    let mut registry = Registry::install(config(100)).expect("install must succeed");
    let a = Principal::Account(1);
    for _ in 0..70 {
        registry.mint(&INSTALLER, &a, md(NFTMetadataKind::NFT721, meta_721())).unwrap();
    }
    assert_eq!(registry.balance_of(&a), 70);
    let owned = registry.owner_tokens(&a);
    let expected: Vec<usize> = (0..70).collect();
    assert_eq!(owned, expected);

    registry.burn(&a, &TokenIdentifier::Index(65)).unwrap();
    let owned = registry.owner_tokens(&a);
    assert_eq!(owned.len(), 69);
    assert!(!owned.contains(&65));
}

#[test]
fn content_hash_matches_reference_vectors() {
    assert_eq!(content_hash(&b"".to_vec()), 0xcbf29ce484222325u64);
    assert_eq!(content_hash(&b"a".to_vec()), 0xaf63dc4c8601ec8cu64);
    assert_eq!(content_hash(&b"foobar".to_vec()), 0x85944171f73967e8u64);
}

#[test]
fn identifier_mode_wire_bytes_decode_as_documented() {
    assert_eq!(WireMode::try_from_u8(0), Ok(WireMode::Ordinal));
    assert_eq!(WireMode::try_from_u8(1), Ok(WireMode::Hash));
    assert_eq!(WireMode::try_from_u8(2), Err(Error::InvalidIdentifierMode));
    assert_eq!(Error::InvalidIdentifierMode.code(), 99u16);
}
