use vstd::prelude::*;
use crate::principal::Principal;

verus! {

/// Lowercase hexadecimal digit for a nibble.
pub open spec fn spec_hex_digit(n: u8) -> char {
    if n < 10 {
        (48 + n) as char
    } else {
        (87 + n) as char
    }
}

/// Lowercase hexadecimal rendering of a byte string, high nibble first.
pub open spec fn spec_hex_of(s: Seq<u8>) -> Seq<char>
    decreases s.len(),
{
    if s.len() == 0 {
        Seq::empty()
    } else {
        spec_hex_of(s.drop_last()) + seq![
            spec_hex_digit(s.last() / 16),
            spec_hex_digit(s.last() % 16),
        ]
    }
}

/// Relies on hex::encode: lowercase hexadecimal, two digits per byte, high
/// nibble first.
#[verifier::external_body]
pub fn hex_encode(data: &Vec<u8>) -> (r: String)
    ensures
        r@ == spec_hex_of(data@),
{
    hex::encode(data)
}

/// What base64::encode returns for a byte string; the result depends on the
/// bytes alone.
pub uninterp spec fn base64_of(s: Seq<u8>) -> Seq<char>;

/// Relies on base64::encode: the standard alphabet with padding, four output
/// characters for every three input bytes rounded up, determined by the
/// bytes alone.
#[verifier::external_body]
pub fn base64_encode(data: &Vec<u8>) -> (r: String)
    ensures
        r@ == base64_of(data@),
        r@.len() == 4 * ((data@.len() + 2) / 3),
{
    base64::encode(data)
}

/// Big-endian bytes of a `u64`.
pub open spec fn spec_u64_be(v: u64) -> Seq<u8> {
    seq![
        (((v as int) / 0x100000000000000) % 256) as u8,
        (((v as int) / 0x1000000000000) % 256) as u8,
        (((v as int) / 0x10000000000) % 256) as u8,
        (((v as int) / 0x100000000) % 256) as u8,
        (((v as int) / 0x1000000) % 256) as u8,
        (((v as int) / 0x10000) % 256) as u8,
        (((v as int) / 0x100) % 256) as u8,
        ((v as int) % 256) as u8,
    ]
}

/// The serialized identity a principal's storage keys are derived from: one
/// tag byte, then the identity number big-endian.
pub open spec fn spec_preimage(p: Principal) -> Seq<u8> {
    seq![p.spec_tag()] + spec_u64_be(p.spec_id())
}

/// Serializes a principal's identity.
pub fn principal_preimage(p: &Principal) -> (r: Vec<u8>)
    ensures
        r@ == spec_preimage(*p),
{
    let tag: u8;
    let id: u64;
    match p {
        Principal::Account(a) => {
            tag = 0;
            id = *a;
        },
        Principal::Contract(c) => {
            tag = 1;
            id = *c;
        },
    }
    let mut v: Vec<u8> = Vec::new();
    v.push(tag);
    push_u64_be(&mut v, id);
    proof {
        assert(v@ =~= spec_preimage(*p));
    }
    v
}

/// Appends the big-endian bytes of `id`.
fn push_u64_be(v: &mut Vec<u8>, id: u64)
    ensures
        final(v)@ == old(v)@ + spec_u64_be(id),
{
    let ghost pre = v@;
    v.push(((id / 0x100000000000000) % 256) as u8);
    v.push(((id / 0x1000000000000) % 256) as u8);
    v.push(((id / 0x10000000000) % 256) as u8);
    v.push(((id / 0x100000000) % 256) as u8);
    v.push(((id / 0x1000000) % 256) as u8);
    v.push(((id / 0x10000) % 256) as u8);
    v.push(((id / 0x100) % 256) as u8);
    v.push((id % 256) as u8);
    proof {
        assert(v@ =~= pre + spec_u64_be(id));
    }
}

/// Storage key for an owner-keyed dictionary row: base64 of the owner's
/// serialized identity, so key length never depends on collection size.
pub fn owner_item_key(p: &Principal) -> (r: String)
    ensures
        r@ == base64_of(spec_preimage(*p)),
{
    let pre = principal_preimage(p);
    base64_encode(&pre)
}

/// Storage key for an account-only dictionary row: lowercase hex of the
/// account's serialized identity. Contract principals have no such key.
pub fn account_item_key(p: &Principal) -> (r: Option<String>)
    ensures
        match r {
            Some(s) => p matches Principal::Account(_) && s@ == spec_hex_of(spec_preimage(*p)),
            None => !(p matches Principal::Account(_)),
        },
{
    if !p.is_account() {
        return None;
    }
    let pre = principal_preimage(p);
    Some(hex_encode(&pre))
}

/// Storage key for a token-index-keyed dictionary row: lowercase hex of the
/// index, big-endian.
pub fn token_item_key(index: u64) -> (r: String)
    ensures
        r@ == spec_hex_of(spec_u64_be(index)),
{
    let mut v: Vec<u8> = Vec::new();
    push_u64_be(&mut v, index);
    proof {
        assert(v@ =~= spec_u64_be(index));
    }
    hex_encode(&v)
}

} // verus!
