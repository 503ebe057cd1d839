use nft_registry::config::{
    CollectionConfig, MetadataMutability, MintingMode, NFTIdentifierMode, NFTMetadataKind,
    OwnerReverseLookupMode, OwnershipMode,
};
use nft_registry::hashing::content_hash;
use nft_registry::metadata::validate;
use nft_registry::principal::{Principal, TokenIdentifier};
use nft_registry::registry::{MetadataEntry, Registry};

const DEFAULT_ACCOUNT: Principal = Principal::Account(100);

fn meta_721() -> Vec<u8> {
    b"name=John Doe\nsymbol=abc\ntoken_uri=https://www.barfoo.com".to_vec()
}

fn updated_meta_721() -> Vec<u8> {
    b"name=John Doe\nsymbol=abc\ntoken_uri=https://www.foobar.com".to_vec()
}

fn config_721(supply: u64) -> CollectionConfig {
    CollectionConfig {
        total_token_supply: supply,
        identifier_mode: NFTIdentifierMode::Ordinal,
        metadata_mutability: MetadataMutability::Mutable,
        ownership_mode: OwnershipMode::Transferable,
        minting_mode: MintingMode::Public,
        reverse_lookup_mode: OwnerReverseLookupMode::NoLookUp,
        required_kinds: vec![NFTMetadataKind::NFT721],
        optional_kinds: vec![],
        allow_minting: true,
        installer: DEFAULT_ACCOUNT,
        minting_acl: vec![],
    }
}

fn md(kind: NFTMetadataKind, blob: Vec<u8>) -> Vec<MetadataEntry> {
    vec![MetadataEntry { kind, blob }]
}

#[test]
fn should_prevent_update_in_immutable_mode() {
    let mut config = config_721(10u64);
    config.identifier_mode = NFTIdentifierMode::Hash;
    config.metadata_mutability = MetadataMutability::Immutable;
    let mut registry = Registry::install(config).expect("install must succeed");

    registry
        .mint(&DEFAULT_ACCOUNT, &DEFAULT_ACCOUNT, md(NFTMetadataKind::NFT721, meta_721()))
        .expect("mint must succeed");

    let token_hash = content_hash(&meta_721());
    let err = registry
        .set_metadata(
            &DEFAULT_ACCOUNT,
            &TokenIdentifier::Hash(token_hash),
            NFTMetadataKind::NFT721,
            &updated_meta_721(),
        )
        .expect_err("must have error");
    assert_eq!(err.code(), 104u16, "must match ForbiddenMetadataUpdate(104)");
}

#[test]
fn should_prevent_install_with_hash_identifier_in_mutable_mode() {
    let mut config = config_721(10u64);
    config.identifier_mode = NFTIdentifierMode::Hash;
    config.metadata_mutability = MetadataMutability::Mutable;
    let err = Registry::install(config).expect_err("must fail at installation");
    assert_eq!(err.code(), 102u16, "Should raise InvalidMetadataMutability(102)");
}

#[test]
fn should_prevent_metadata_update_by_non_owner_key() {
    let mut registry = Registry::install(config_721(10u64)).expect("install must succeed");

    let nft_owner = Principal::Account(4);
    registry
        .mint(&DEFAULT_ACCOUNT, &nft_owner, md(NFTMetadataKind::NFT721, meta_721()))
        .expect("mint must succeed");

    let token_owner =
        registry.owner_of(&TokenIdentifier::Index(0)).expect("token must resolve");
    assert_eq!(token_owner, nft_owner);

    let err = registry
        .set_metadata(
            &DEFAULT_ACCOUNT,
            &TokenIdentifier::Index(0),
            NFTMetadataKind::NFT721,
            &updated_meta_721(),
        )
        .expect_err("must have error");
    assert_eq!(err.code(), 6u16, "must match InvalidTokenOwner(6)");
}

#[test]
fn should_get_metadata_using_token_id() {
    let mut config = config_721(100u64);
    config.reverse_lookup_mode = OwnerReverseLookupMode::Complete;
    let mut registry = Registry::install(config).expect("install must succeed");

    registry.register_owner(&DEFAULT_ACCOUNT);
    registry
        .mint(&DEFAULT_ACCOUNT, &DEFAULT_ACCOUNT, md(NFTMetadataKind::NFT721, meta_721()))
        .expect("mint must succeed");

    let stored = registry
        .metadata(&TokenIdentifier::Index(0), NFTMetadataKind::NFT721)
        .expect("metadata must be retrievable by token id");
    assert_eq!(stored, meta_721());
}

#[test]
fn get_schema() {
    // a custom-validated blob only has to parse into distinct fields
    let custom = b"deity_name=Baldur\nmythology=Nordic".to_vec();
    let normalized =
        validate(NFTMetadataKind::CustomValidated, &custom).expect("custom schema must validate");
    assert_eq!(normalized, custom);
}
