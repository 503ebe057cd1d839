use nft_registry::keys::{
    account_item_key, base64_encode, hex_encode, owner_item_key, principal_preimage,
    token_item_key,
};
use nft_registry::principal::Principal;

#[test]
fn hex_encoding_is_lowercase_two_digits_per_byte() {
    assert_eq!(hex_encode(&vec![]), "");
    assert_eq!(hex_encode(&vec![0x00, 0xff, 0x1a]), "00ff1a");
    assert_eq!(hex_encode(&vec![0xde, 0xad, 0xbe, 0xef]), "deadbeef");
}

#[test]
fn base64_encoding_matches_the_standard_alphabet() {
    assert_eq!(base64_encode(&vec![]), "");
    assert_eq!(base64_encode(&vec![97, 98, 99]), "YWJj");
    assert_eq!(base64_encode(&vec![97]), "YQ==");
}

#[test]
fn principal_preimage_is_tagged_big_endian_identity() {
    assert_eq!(principal_preimage(&Principal::Account(1)), vec![0, 0, 0, 0, 0, 0, 0, 0, 1]);
    assert_eq!(
        principal_preimage(&Principal::Contract(0x0102)),
        vec![1, 0, 0, 0, 0, 0, 0, 1, 2]
    );
}

#[test]
fn owner_item_keys_are_base64_of_the_preimage() {
    // nine zero bytes encode to twelve alphabet zeros
    assert_eq!(owner_item_key(&Principal::Account(0)), "AAAAAAAAAAAA");
    assert_eq!(owner_item_key(&Principal::Account(97)), base64_encode(&vec![0, 0, 0, 0, 0, 0, 0, 0, 97]));
}

#[test]
fn account_item_keys_exist_for_accounts_only() {
    assert_eq!(
        account_item_key(&Principal::Account(1)),
        Some("000000000000000001".to_string())
    );
    assert_eq!(account_item_key(&Principal::Contract(1)), None);
}

#[test]
fn token_item_keys_are_fixed_width_hex_indices() {
    assert_eq!(token_item_key(0), "0000000000000000");
    assert_eq!(token_item_key(1), "0000000000000001");
    assert_eq!(token_item_key(0xdead), "000000000000dead");
}
