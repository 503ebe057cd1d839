use nft_registry::config::{
    CollectionConfig, MetadataMutability, MintingMode, NFTIdentifierMode, NFTMetadataKind,
    OwnerReverseLookupMode, OwnershipMode,
};
use nft_registry::error::Error;
use nft_registry::principal::{Principal, TokenIdentifier};
use nft_registry::registry::{Event, MetadataEntry, Registry};

const DEFAULT_ACCOUNT: Principal = Principal::Account(100);
const ACCOUNT_USER_1: Principal = Principal::Account(1);
const ACCOUNT_USER_2: Principal = Principal::Account(2);

fn meta_721() -> Vec<u8> {
    b"name=John Doe\nsymbol=abc\ntoken_uri=https://www.barfoo.com".to_vec()
}

fn meta_cep78() -> Vec<u8> {
    b"name=John Doe\ntoken_uri=https://www.barfoo.com\nchecksum=940bffb3f2bba35f84313aa26da09ece3ad47045c6a1292c2bbd2df4ab1a55fb".to_vec()
}

fn base_config() -> CollectionConfig {
    CollectionConfig {
        total_token_supply: 2,
        identifier_mode: NFTIdentifierMode::Ordinal,
        metadata_mutability: MetadataMutability::Mutable,
        ownership_mode: OwnershipMode::Transferable,
        minting_mode: MintingMode::Public,
        reverse_lookup_mode: OwnerReverseLookupMode::NoLookUp,
        required_kinds: vec![NFTMetadataKind::NFT721],
        optional_kinds: vec![],
        allow_minting: true,
        installer: DEFAULT_ACCOUNT,
        minting_acl: vec![],
    }
}

fn md(kind: NFTMetadataKind, blob: Vec<u8>) -> Vec<MetadataEntry> {
    vec![MetadataEntry { kind, blob }]
}

fn setup_nft_contract(total_token_supply: Option<u64>, allowing_minting: bool) -> Registry {
    let mut config = base_config();
    if let Some(supply) = total_token_supply {
        config.total_token_supply = supply;
    }
    config.allow_minting = allowing_minting;
    Registry::install(config).expect("install must succeed")
}

#[test]
fn should_disallow_minting_when_allow_minting_is_set_to_false() {
    let mut registry = setup_nft_contract(Some(2u64), false);
    let err = registry
        .mint(&DEFAULT_ACCOUNT, &DEFAULT_ACCOUNT, md(NFTMetadataKind::NFT721, meta_721()))
        .expect_err("must have error");
    // Error should be MintingPaused=59
    assert_eq!(err.code(), 59u16, "should now allow minting when minting is disabled");
}

#[test]
fn entry_points_with_ret_should_return_correct_value() {
    let mut registry = setup_nft_contract(Some(2u64), true);
    registry
        .mint(&DEFAULT_ACCOUNT, &DEFAULT_ACCOUNT, md(NFTMetadataKind::NFT721, meta_721()))
        .expect("mint must succeed");

    let actual_balance = registry.balance_of(&DEFAULT_ACCOUNT);
    let expected_balance = 1u64;
    assert_eq!(actual_balance, expected_balance, "actual and expected balances should be equal");

    let token_id = TokenIdentifier::Index(0);
    let actual_owner = registry.owner_of(&token_id).expect("token must resolve");
    let expected_owner = DEFAULT_ACCOUNT;
    assert_eq!(actual_owner, expected_owner, "actual and expected owner should be equal");

    registry
        .approve(&DEFAULT_ACCOUNT, &token_id, Some(ACCOUNT_USER_1))
        .expect("approve must succeed");
    let actual_approved_account = registry.get_approved(&token_id).expect("token must resolve");
    let expected_approved_account = ACCOUNT_USER_1;
    assert_eq!(
        actual_approved_account,
        Some(expected_approved_account),
        "actual and expected approved account should be equal"
    );
}

#[test]
fn should_mint() {
    let mut config = base_config();
    config.required_kinds = vec![NFTMetadataKind::CEP78];
    let mut registry = Registry::install(config).expect("install must succeed");
    let (token_index, event) = registry
        .mint(&DEFAULT_ACCOUNT, &DEFAULT_ACCOUNT, md(NFTMetadataKind::CEP78, meta_cep78()))
        .expect("mint must succeed");
    assert_eq!(token_index, 0);
    let expected_event = Event::Mint { recipient: DEFAULT_ACCOUNT, token_index: 0 };
    assert_eq!(event, expected_event);
}

#[test]
fn mint_should_return_dictionary_key_to_callers_owned_tokens() {
    let mut registry = setup_nft_contract(Some(100u64), true);
    registry
        .mint(&DEFAULT_ACCOUNT, &DEFAULT_ACCOUNT, md(NFTMetadataKind::NFT721, meta_721()))
        .expect("mint must succeed");
    let owned = registry.owner_tokens(&DEFAULT_ACCOUNT);
    assert_eq!(owned, vec![0usize]);
}

#[test]
fn mint_should_increment_number_of_minted_tokens_by_one_and_add_public_key_to_token_owners() {
    let mut registry = setup_nft_contract(Some(2u64), true);
    registry
        .mint(&DEFAULT_ACCOUNT, &DEFAULT_ACCOUNT, md(NFTMetadataKind::NFT721, meta_721()))
        .expect("mint must succeed");

    // mint should have incremented number_of_minted_tokens by one
    assert_eq!(
        registry.number_of_minted_tokens(),
        1u64,
        "number_of_minted_tokens initialized at installation should have incremented by one"
    );

    let token_id = TokenIdentifier::Index(0);
    let minter = registry.owner_of(&token_id).expect("token must resolve");
    assert_eq!(DEFAULT_ACCOUNT, minter);
    assert!(registry.owner_holds(&DEFAULT_ACCOUNT, 0));

    // If total_token_supply is initialized to 1 the following mint should fail.
    // With total_token_supply > 1 it should pass
    registry
        .mint(&DEFAULT_ACCOUNT, &DEFAULT_ACCOUNT, md(NFTMetadataKind::NFT721, meta_721()))
        .expect("second mint must succeed");
}

#[test]
fn should_set_meta_data() {
    let mut registry = setup_nft_contract(Some(2u64), true);
    registry
        .mint(&DEFAULT_ACCOUNT, &DEFAULT_ACCOUNT, md(NFTMetadataKind::NFT721, meta_721()))
        .expect("mint must succeed");
    let stored = registry
        .metadata(&TokenIdentifier::Index(0), NFTMetadataKind::NFT721)
        .expect("metadata must be stored");
    assert_eq!(stored, meta_721());
}

#[test]
fn should_set_issuer() {
    let mut registry = setup_nft_contract(Some(2u64), true);
    registry
        .mint(&DEFAULT_ACCOUNT, &DEFAULT_ACCOUNT, md(NFTMetadataKind::NFT721, meta_721()))
        .expect("mint must succeed");
    let actual_token_issuer =
        registry.issuer_of(&TokenIdentifier::Index(0)).expect("token must resolve");
    assert_eq!(actual_token_issuer, DEFAULT_ACCOUNT);
}

#[test]
fn should_set_issuer_with_different_owner() {
    let mut registry = setup_nft_contract(Some(2u64), true);
    registry
        .mint(&DEFAULT_ACCOUNT, &ACCOUNT_USER_1, md(NFTMetadataKind::NFT721, meta_721()))
        .expect("mint must succeed");
    let actual_token_issuer =
        registry.issuer_of(&TokenIdentifier::Index(0)).expect("token must resolve");
    assert_eq!(actual_token_issuer, DEFAULT_ACCOUNT);
    assert_eq!(
        registry.owner_of(&TokenIdentifier::Index(0)).expect("token must resolve"),
        ACCOUNT_USER_1
    );
}

#[test]
fn should_track_token_balance_by_owner() {
    let mut registry = setup_nft_contract(Some(2u64), true);
    registry
        .mint(&DEFAULT_ACCOUNT, &DEFAULT_ACCOUNT, md(NFTMetadataKind::NFT721, meta_721()))
        .expect("mint must succeed");
    let actual_minter_balance = registry.balance_of(&DEFAULT_ACCOUNT);
    let expected_minter_balance = 1u64;
    assert_eq!(actual_minter_balance, expected_minter_balance);
}

#[test]
fn should_disallow_public_minting_with_flag_set_to_false() {
    let mut config = base_config();
    config.total_token_supply = 100;
    config.minting_mode = MintingMode::Installer;
    let mut registry = Registry::install(config).expect("install must succeed");

    assert_eq!(
        registry.config.minting_mode,
        MintingMode::Installer,
        "public minting should be set to false"
    );

    let err = registry
        .mint(&ACCOUNT_USER_1, &ACCOUNT_USER_1, md(NFTMetadataKind::NFT721, meta_721()))
        .expect_err("minting by a non-installer must fail");
    assert_eq!(err, Error::InvalidMintingMode);
}

#[test]
fn should_set_approval_for_all() {
    let mut registry = setup_nft_contract(Some(100u64), true);
    let owner_key = DEFAULT_ACCOUNT;
    registry
        .mint(&owner_key, &owner_key, md(NFTMetadataKind::NFT721, meta_721()))
        .expect("mint must succeed");

    let operator_key = Principal::Account(7);
    let actual_event = registry.approve_all(&owner_key, &operator_key, true);
    let is_operator = registry.is_approved_for_all(&owner_key, &operator_key);
    assert!(is_operator, "expected operator to be approved for all");

    // Expect ApprovalForAll event.
    let expected_event = Event::ApprovalForAll { owner: owner_key, operator: operator_key };
    assert_eq!(actual_event, expected_event, "Expected ApprovalForAll event.");

    // Test if two minted tokens are transferable by operator
    let token_receiver_key = ACCOUNT_USER_1;
    registry.register_owner(&token_receiver_key);

    // Transfer first minted token by operator
    registry
        .transfer(&operator_key, &TokenIdentifier::Index(0), &owner_key, &token_receiver_key)
        .expect("operator transfer must succeed");
    let actual_token_owner =
        registry.owner_of(&TokenIdentifier::Index(0)).expect("token must resolve");
    assert_eq!(actual_token_owner, token_receiver_key);

    // Second mint by owner
    registry
        .mint(&owner_key, &owner_key, md(NFTMetadataKind::NFT721, meta_721()))
        .expect("second mint must succeed");

    // Transfer second minted token by operator
    registry
        .transfer(&operator_key, &TokenIdentifier::Index(1), &owner_key, &token_receiver_key)
        .expect("operator transfer must succeed");
    let actual_token_owner =
        registry.owner_of(&TokenIdentifier::Index(1)).expect("token must resolve");
    assert_eq!(actual_token_owner, token_receiver_key);
}

#[test]
fn should_revoke_approval_for_all() {
    let mut registry = setup_nft_contract(Some(100u64), true);
    let owner_key = DEFAULT_ACCOUNT;
    registry
        .mint(&owner_key, &owner_key, md(NFTMetadataKind::NFT721, meta_721()))
        .expect("mint must succeed");

    let operator_key = Principal::Account(7);
    let actual_event = registry.approve_all(&owner_key, &operator_key, true);
    assert!(
        registry.is_approved_for_all(&owner_key, &operator_key),
        "expected operator to be approved for all"
    );
    let expected_event = Event::ApprovalForAll { owner: owner_key, operator: operator_key };
    assert_eq!(actual_event, expected_event, "Expected ApprovalForAll event.");

    let actual_event = registry.approve_all(&owner_key, &operator_key, false);
    assert!(
        !registry.is_approved_for_all(&owner_key, &operator_key),
        "expected operator not to be approved for all"
    );
    // Expect RevokedForAll event.
    let expected_event = Event::RevokedForAll { owner: owner_key, operator: operator_key };
    assert_eq!(actual_event, expected_event, "Expected RevokedForAll event.");
}

// A test to ensure that the page table allocation is preserved
// even if the "register_owner" is called twice.
#[test]
fn should_maintain_page_table_despite_invoking_register_owner() {
    let mut config = base_config();
    config.total_token_supply = 1000;
    config.metadata_mutability = MetadataMutability::Immutable;
    config.required_kinds = vec![NFTMetadataKind::Raw];
    let mut registry = Registry::install(config).expect("install must succeed");

    registry
        .mint(&DEFAULT_ACCOUNT, &DEFAULT_ACCOUNT, md(NFTMetadataKind::Raw, b"".to_vec()))
        .expect("mint must succeed");

    let actual_page_table = registry.owner_tokens(&DEFAULT_ACCOUNT);
    assert_eq!(actual_page_table.len(), 1);

    // The mint registered the owner; re-invoke the same entry point
    // and ensure that the page table doesn't mutate.
    registry.register_owner(&DEFAULT_ACCOUNT);
    let table_post_register = registry.owner_tokens(&DEFAULT_ACCOUNT);
    assert_eq!(actual_page_table, table_post_register);
    assert_eq!(registry.balance_of(&DEFAULT_ACCOUNT), 1);
}

#[test]
fn should_prevent_mint_to_unregistered_owner() {
    let mut config = base_config();
    config.total_token_supply = 1000;
    config.metadata_mutability = MetadataMutability::Immutable;
    config.reverse_lookup_mode = OwnerReverseLookupMode::Complete;
    let mut registry = Registry::install(config).expect("install must succeed");

    let err = registry
        .mint(&DEFAULT_ACCOUNT, &DEFAULT_ACCOUNT, md(NFTMetadataKind::NFT721, meta_721()))
        .expect_err("minting to an unregistered owner must fail under full reverse lookup");
    assert_eq!(err, Error::UnregisteredOwner);

    registry.register_owner(&DEFAULT_ACCOUNT);
    registry
        .mint(&DEFAULT_ACCOUNT, &DEFAULT_ACCOUNT, md(NFTMetadataKind::NFT721, meta_721()))
        .expect("after registration the mint must succeed");
}

#[test]
fn should_mint_with_two_required_metadata_kind() {
    let mut config = base_config();
    config.total_token_supply = 1000;
    config.metadata_mutability = MetadataMutability::Immutable;
    config.required_kinds = vec![NFTMetadataKind::CEP78, NFTMetadataKind::Raw];
    let mut registry = Registry::install(config).expect("install must succeed");

    let metadata = vec![
        MetadataEntry { kind: NFTMetadataKind::CEP78, blob: meta_cep78() },
        MetadataEntry { kind: NFTMetadataKind::Raw, blob: meta_cep78() },
    ];
    registry.mint(&DEFAULT_ACCOUNT, &DEFAULT_ACCOUNT, metadata).expect("mint must succeed");

    let stored = registry
        .metadata(&TokenIdentifier::Index(0), NFTMetadataKind::CEP78)
        .expect("metadata must be stored");
    assert_eq!(stored, meta_cep78());

    // a mint that leaves out one required kind is rejected
    let err = registry
        .mint(&DEFAULT_ACCOUNT, &DEFAULT_ACCOUNT, md(NFTMetadataKind::CEP78, meta_cep78()))
        .expect_err("a missing required kind must fail the mint");
    assert_eq!(err, Error::MissingMetadataKind);
}

#[test]
fn should_mint_with_one_required_one_optional_metadata_kind_without_optional() {
    let mut config = base_config();
    config.total_token_supply = 1000;
    config.metadata_mutability = MetadataMutability::Immutable;
    config.required_kinds = vec![NFTMetadataKind::CEP78];
    config.optional_kinds = vec![NFTMetadataKind::Raw];
    let mut registry = Registry::install(config).expect("install must succeed");

    registry
        .mint(&DEFAULT_ACCOUNT, &DEFAULT_ACCOUNT, md(NFTMetadataKind::CEP78, meta_cep78()))
        .expect("mint without the optional kind must succeed");
    registry
        .mint(&DEFAULT_ACCOUNT, &DEFAULT_ACCOUNT, md(NFTMetadataKind::CEP78, meta_cep78()))
        .expect("second mint must succeed");

    let stored = registry
        .metadata(&TokenIdentifier::Index(0), NFTMetadataKind::CEP78)
        .expect("metadata must be stored");
    assert_eq!(stored, meta_cep78());
}

#[test]
fn should_mint_with_transfer_only_reporting() {
    let mut config = base_config();
    config.required_kinds = vec![NFTMetadataKind::CEP78];
    config.reverse_lookup_mode = OwnerReverseLookupMode::TransfersOnly;
    let mut registry = Registry::install(config).expect("install must succeed");

    registry
        .mint(&DEFAULT_ACCOUNT, &DEFAULT_ACCOUNT, md(NFTMetadataKind::CEP78, meta_cep78()))
        .expect("mint must succeed");

    let actual_balance_after_mint = registry.balance_of(&DEFAULT_ACCOUNT);
    let expected_balance_after_mint = 1u64;
    assert_eq!(actual_balance_after_mint, expected_balance_after_mint);
}

#[test]
fn should_approve_all_with_flat_gas_cost() {
    let mut registry = setup_nft_contract(Some(100u64), true);
    let owner_key = DEFAULT_ACCOUNT;
    registry
        .mint(&owner_key, &owner_key, md(NFTMetadataKind::NFT721, meta_721()))
        .expect("mint must succeed");

    let operator_key = ACCOUNT_USER_1;
    registry.approve_all(&owner_key, &operator_key, true);
    assert!(
        registry.is_approved_for_all(&owner_key, &operator_key),
        "expected operator to be approved for all"
    );

    // grow the holdings, then grant a second operator: the operation's
    // contract touches only the pair table, so the work done is the same
    // whatever the owner holds
    registry
        .mint(&owner_key, &owner_key, md(NFTMetadataKind::NFT721, meta_721()))
        .expect("second mint must succeed");
    let other_operator_key = ACCOUNT_USER_2;
    registry.approve_all(&owner_key, &other_operator_key, true);
    assert!(
        registry.is_approved_for_all(&owner_key, &other_operator_key),
        "expected other operator to be approved for all"
    );
    assert!(registry.is_approved_for_all(&owner_key, &operator_key));
    assert_eq!(registry.balance_of(&owner_key), 2);
}
