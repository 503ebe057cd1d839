use vstd::prelude::*;
use crate::config::NFTMetadataKind;
use crate::error::Error;

verus! {

/// Field separator of the metadata format: one field per line.
pub const NEWLINE_BYTE: u8 = 10;

/// Key/value separator within a line.
pub const EQUALS_BYTE: u8 = 61;

/// First position at or after `from` where `b` occurs, or the length of `s`
/// when it does not occur there.
pub open spec fn find_from(s: Seq<u8>, from: int, b: u8) -> int
    decreases s.len() - from,
{
    if from >= s.len() {
        s.len() as int
    } else if s[from] == b {
        from
    } else {
        find_from(s, from + 1, b)
    }
}

pub proof fn lemma_find_from(s: Seq<u8>, from: int, b: u8)
    requires
        0 <= from <= s.len(),
    ensures
        from <= find_from(s, from, b) <= s.len(),
        find_from(s, from, b) < s.len() ==> s[find_from(s, from, b)] == b,
        forall|k: int| from <= k < find_from(s, from, b) ==> s[k] != b,
    decreases s.len() - from,
{
    if from < s.len() && s[from] != b {
        lemma_find_from(s, from + 1, b);
    }
}

/// The metadata grammar: a blob is `key=value` lines separated by single
/// newlines; a key is nonempty and everything before the first `=` of its
/// line. `None` when any line is malformed.
pub open spec fn spec_parse_from(s: Seq<u8>, from: int) -> Option<Seq<(Seq<u8>, Seq<u8>)>>
    decreases s.len() - from,
    when 0 <= from <= s.len()
    via spec_parse_from_decreases
{
    let j = find_from(s, from, NEWLINE_BYTE);
    let e = find_from(s, from, EQUALS_BYTE);
    if !(from < e && e < j) {
        None
    } else {
        let field = (s.subrange(from, e), s.subrange(e + 1, j));
        if j == s.len() {
            Some(seq![field])
        } else {
            match spec_parse_from(s, j + 1) {
                None => None,
                Some(rest) => Some(seq![field] + rest),
            }
        }
    }
}

#[via_fn]
proof fn spec_parse_from_decreases(s: Seq<u8>, from: int) {
    lemma_find_from(s, from, NEWLINE_BYTE);
}

/// The fields of a metadata blob, or `None` when it does not parse.
pub open spec fn spec_parse(s: Seq<u8>) -> Option<Seq<(Seq<u8>, Seq<u8>)>> {
    spec_parse_from(s, 0)
}

/// One parsed metadata field.
pub struct MetaField {
    pub key: Vec<u8>,
    pub value: Vec<u8>,
}

/// A parsed field as a pair of byte sequences.
pub open spec fn spec_field_of(f: MetaField) -> (Seq<u8>, Seq<u8>) {
    (f.key@, f.value@)
}

/// A parsed field vector as a sequence of pairs of byte sequences.
pub open spec fn spec_fields_of(v: Seq<MetaField>) -> Seq<(Seq<u8>, Seq<u8>)> {
    v.map_values(|f: MetaField| spec_field_of(f))
}

/// Copies `v[a..b]`.
pub fn copy_range(v: &Vec<u8>, a: usize, b: usize) -> (r: Vec<u8>)
    requires
        a <= b <= v@.len(),
    ensures
        r@ == v@.subrange(a as int, b as int),
{
    let mut r: Vec<u8> = Vec::new();
    proof {
        assert(v@.subrange(a as int, a as int) =~= Seq::<u8>::empty());
    }
    let mut i: usize = a;
    while i < b
        invariant
            a <= i <= b <= v@.len(),
            r@ == v@.subrange(a as int, i as int),
        decreases b - i,
    {
        r.push(v[i]);
        i += 1;
        proof {
            assert(v@.subrange(a as int, i as int) =~= v@.subrange(a as int, i - 1).push(
                v@[i - 1],
            ));
        }
    }
    r
}

/// Decides equality of two byte vectors.
pub fn bytes_eq(a: &Vec<u8>, b: &Vec<u8>) -> (r: bool)
    ensures
        r == (a@ == b@),
{
    if a.len() != b.len() {
        return false;
    }
    let mut i: usize = 0;
    while i < a.len()
        invariant
            i <= a@.len(),
            a@.len() == b@.len(),
            forall|k: int| 0 <= k < i ==> a@[k] == b@[k],
        decreases a@.len() - i,
    {
        if a[i] != b[i] {
            return false;
        }
        i += 1;
    }
    proof {
        assert(a@ =~= b@);
    }
    true
}

/// Parses a metadata blob into its fields, or `None` when malformed.
pub fn parse_fields(raw: &Vec<u8>) -> (r: Option<Vec<MetaField>>)
    ensures
        match r {
            Some(v) => spec_parse(raw@) == Some(spec_fields_of(v@)),
            None => spec_parse(raw@) is None,
        },
{
    let n = raw.len();
    let mut acc: Vec<MetaField> = Vec::new();
    let mut from: usize = 0;
    proof {
        assert(spec_fields_of(acc@) =~= Seq::<(Seq<u8>, Seq<u8>)>::empty());
        match spec_parse_from(raw@, 0) {
            Some(rest) => {
                assert(spec_fields_of(acc@) + rest =~= rest);
            },
            None => {
            },
        }
    }
    loop
        invariant
            from <= n,
            n == raw@.len(),
            spec_parse(raw@) == (match spec_parse_from(raw@, from as int) {
                None => None::<Seq<(Seq<u8>, Seq<u8>)>>,
                Some(rest) => Some(spec_fields_of(acc@) + rest),
            }),
        decreases n - from,
    {
        let ghost accv0 = spec_fields_of(acc@);
        let mut j: usize = from;
        while j < n && raw[j] != NEWLINE_BYTE
            invariant
                from <= j <= n,
                n == raw@.len(),
                forall|k: int| from <= k < j ==> raw@[k] != NEWLINE_BYTE,
            decreases n - j,
        {
            j += 1;
        }
        proof {
            lemma_find_from(raw@, from as int, NEWLINE_BYTE);
            let f = find_from(raw@, from as int, NEWLINE_BYTE);
            if f < j {
                assert(raw@[f] == NEWLINE_BYTE);
            }
            if f > j {
                assert(j < n);
                assert(raw@[j as int] == NEWLINE_BYTE);
            }
            assert(j as int == f);
        }
        let mut e: usize = from;
        while e < j && raw[e] != EQUALS_BYTE
            invariant
                from <= e <= j <= n,
                n == raw@.len(),
                forall|k: int| from <= k < e ==> raw@[k] != EQUALS_BYTE,
            decreases j - e,
        {
            e += 1;
        }
        let ghost fe = find_from(raw@, from as int, EQUALS_BYTE);
        proof {
            lemma_find_from(raw@, from as int, EQUALS_BYTE);
            if e < j {
                assert(raw@[e as int] == EQUALS_BYTE);
                if fe < e {
                    assert(raw@[fe] == EQUALS_BYTE);
                }
                assert(fe == e as int);
            } else {
                if fe < j {
                    assert(raw@[fe] == EQUALS_BYTE);
                }
                assert(fe >= j as int);
            }
        }
        if e == j || e == from {
            proof {
                assert(spec_parse_from(raw@, from as int) is None);
            }
            return None;
        }
        let key = copy_range(raw, from, e);
        let value = copy_range(raw, e + 1, j);
        acc.push(MetaField { key, value });
        let ghost fld = (raw@.subrange(from as int, e as int), raw@.subrange(e + 1, j as int));
        proof {
            assert(spec_fields_of(acc@) =~= accv0 + seq![fld]);
        }
        if j == n {
            proof {
                assert(spec_parse_from(raw@, from as int) == Some(seq![fld]));
                assert(accv0 + seq![fld] =~= spec_fields_of(acc@));
            }
            return Some(acc);
        }
        proof {
            let rest0 = spec_parse_from(raw@, j + 1);
            assert(spec_parse_from(raw@, from as int) == (match rest0 {
                None => None::<Seq<(Seq<u8>, Seq<u8>)>>,
                Some(rest) => Some(seq![fld] + rest),
            }));
            match rest0 {
                Some(rest) => {
                    assert(accv0 + (seq![fld] + rest) =~= spec_fields_of(acc@) + rest);
                },
                None => {
                },
            }
        }
        from = j + 1;
    }
}

/// True when some field has the given key.
pub open spec fn spec_has_key(fields: Seq<(Seq<u8>, Seq<u8>)>, key: Seq<u8>) -> bool {
    exists|i: int| 0 <= i < fields.len() && fields[i].0 == key
}

/// True when no two fields share a key.
pub open spec fn spec_keys_distinct(fields: Seq<(Seq<u8>, Seq<u8>)>) -> bool {
    forall|i: int, j: int| 0 <= i < j < fields.len() ==> fields[i].0 != fields[j].0
}

/// True when the field keys are exactly the mandatory ones: each mandatory
/// key is present and no unknown key appears.
pub open spec fn spec_keys_match(fields: Seq<(Seq<u8>, Seq<u8>)>, mand: Seq<Seq<u8>>) -> bool {
    &&& forall|k: int| 0 <= k < mand.len() ==> spec_has_key(fields, mand[k])
    &&& forall|i: int| 0 <= i < fields.len() ==> mand.contains(fields[i].0)
}

pub open spec fn spec_key_name() -> Seq<u8> {
    seq![110u8, 97u8, 109u8, 101u8]
}

pub open spec fn spec_key_symbol() -> Seq<u8> {
    seq![115u8, 121u8, 109u8, 98u8, 111u8, 108u8]
}

pub open spec fn spec_key_token_uri() -> Seq<u8> {
    seq![116u8, 111u8, 107u8, 101u8, 110u8, 95u8, 117u8, 114u8, 105u8]
}

pub open spec fn spec_key_checksum() -> Seq<u8> {
    seq![99u8, 104u8, 101u8, 99u8, 107u8, 115u8, 117u8, 109u8]
}

/// The mandatory field keys of each schema kind.
pub open spec fn spec_mandatory_keys(kind: NFTMetadataKind) -> Seq<Seq<u8>> {
    match kind {
        NFTMetadataKind::CEP78 => seq![spec_key_name(), spec_key_token_uri(), spec_key_checksum()],
        NFTMetadataKind::NFT721 => seq![spec_key_name(), spec_key_symbol(), spec_key_token_uri()],
        NFTMetadataKind::Raw => seq![],
        NFTMetadataKind::CustomValidated => seq![],
    }
}

/// What `validate` accepts: raw blobs always; custom blobs when they parse
/// with distinct keys; structured blobs when additionally the keys are
/// exactly the kind's mandatory ones.
pub open spec fn spec_valid_metadata(kind: NFTMetadataKind, s: Seq<u8>) -> bool {
    match kind {
        NFTMetadataKind::Raw => true,
        NFTMetadataKind::CustomValidated => match spec_parse(s) {
            Some(fields) => spec_keys_distinct(fields),
            None => false,
        },
        _ => match spec_parse(s) {
            Some(fields) => spec_keys_distinct(fields) && spec_keys_match(
                fields,
                spec_mandatory_keys(kind),
            ),
            None => false,
        },
    }
}

/// Builds the key `name`.
pub fn key_name() -> (r: Vec<u8>)
    ensures
        r@ == spec_key_name(),
{
    let mut v: Vec<u8> = Vec::new();
    v.push(110);
    v.push(97);
    v.push(109);
    v.push(101);
    proof {
        assert(v@ =~= spec_key_name());
    }
    v
}

/// Builds the key `symbol`.
pub fn key_symbol() -> (r: Vec<u8>)
    ensures
        r@ == spec_key_symbol(),
{
    let mut v: Vec<u8> = Vec::new();
    v.push(115);
    v.push(121);
    v.push(109);
    v.push(98);
    v.push(111);
    v.push(108);
    proof {
        assert(v@ =~= spec_key_symbol());
    }
    v
}

/// Builds the key `token_uri`.
pub fn key_token_uri() -> (r: Vec<u8>)
    ensures
        r@ == spec_key_token_uri(),
{
    let mut v: Vec<u8> = Vec::new();
    v.push(116);
    v.push(111);
    v.push(107);
    v.push(101);
    v.push(110);
    v.push(95);
    v.push(117);
    v.push(114);
    v.push(105);
    proof {
        assert(v@ =~= spec_key_token_uri());
    }
    v
}

/// Builds the key `checksum`.
pub fn key_checksum() -> (r: Vec<u8>)
    ensures
        r@ == spec_key_checksum(),
{
    let mut v: Vec<u8> = Vec::new();
    v.push(99);
    v.push(104);
    v.push(101);
    v.push(99);
    v.push(107);
    v.push(115);
    v.push(117);
    v.push(109);
    proof {
        assert(v@ =~= spec_key_checksum());
    }
    v
}

/// The view of a list of keys.
pub open spec fn spec_keys_of(v: Seq<Vec<u8>>) -> Seq<Seq<u8>> {
    v.map_values(|k: Vec<u8>| k@)
}

/// Builds the mandatory key list of a kind.
pub fn mandatory_keys(kind: NFTMetadataKind) -> (r: Vec<Vec<u8>>)
    ensures
        spec_keys_of(r@) == spec_mandatory_keys(kind),
{
    let mut v: Vec<Vec<u8>> = Vec::new();
    match kind {
        NFTMetadataKind::CEP78 => {
            v.push(key_name());
            v.push(key_token_uri());
            v.push(key_checksum());
        },
        NFTMetadataKind::NFT721 => {
            v.push(key_name());
            v.push(key_symbol());
            v.push(key_token_uri());
        },
        NFTMetadataKind::Raw => {
        },
        NFTMetadataKind::CustomValidated => {
        },
    }
    proof {
        assert(spec_keys_of(v@) =~= spec_mandatory_keys(kind));
    }
    v
}

/// Decides whether some parsed field has the given key.
pub fn fields_have_key(fields: &Vec<MetaField>, key: &Vec<u8>) -> (r: bool)
    ensures
        r == spec_has_key(spec_fields_of(fields@), key@),
{
    let mut i: usize = 0;
    while i < fields.len()
        invariant
            i <= fields@.len(),
            forall|k: int| 0 <= k < i ==> spec_fields_of(fields@)[k].0 != key@,
        decreases fields@.len() - i,
    {
        if bytes_eq(&fields[i].key, key) {
            proof {
                assert(spec_fields_of(fields@)[i as int].0 == key@);
            }
            return true;
        }
        i += 1;
    }
    false
}

/// Decides whether the parsed fields carry pairwise distinct keys.
pub fn fields_distinct(fields: &Vec<MetaField>) -> (r: bool)
    ensures
        r == spec_keys_distinct(spec_fields_of(fields@)),
{
    let mut i: usize = 0;
    while i < fields.len()
        invariant
            i <= fields@.len(),
            forall|p: int, q: int|
                0 <= p < q < fields@.len() && p < i ==> spec_fields_of(fields@)[p].0
                    != spec_fields_of(fields@)[q].0,
        decreases fields@.len() - i,
    {
        let mut j: usize = i + 1;
        while j < fields.len()
            invariant
                i < fields@.len(),
                i < j <= fields@.len(),
                forall|q: int|
                    i < q < j ==> spec_fields_of(fields@)[i as int].0 != spec_fields_of(
                        fields@,
                    )[q].0,
            decreases fields@.len() - j,
        {
            if bytes_eq(&fields[i].key, &fields[j].key) {
                proof {
                    assert(spec_fields_of(fields@)[i as int].0 == spec_fields_of(
                        fields@,
                    )[j as int].0);
                }
                return false;
            }
            j += 1;
        }
        i += 1;
    }
    true
}

/// Decides whether every parsed field key is one of the allowed keys.
pub fn fields_only_keys(fields: &Vec<MetaField>, allowed: &Vec<Vec<u8>>) -> (r: bool)
    ensures
        r == (forall|i: int|
            0 <= i < fields@.len() ==> spec_keys_of(allowed@).contains(
                spec_fields_of(fields@)[i].0,
            )),
{
    let mut i: usize = 0;
    while i < fields.len()
        invariant
            i <= fields@.len(),
            forall|k: int|
                0 <= k < i ==> spec_keys_of(allowed@).contains(spec_fields_of(fields@)[k].0),
        decreases fields@.len() - i,
    {
        let mut hit = false;
        let mut j: usize = 0;
        while j < allowed.len()
            invariant
                i < fields@.len(),
                j <= allowed@.len(),
                hit ==> spec_keys_of(allowed@).contains(spec_fields_of(fields@)[i as int].0),
                !hit ==> forall|q: int|
                    0 <= q < j ==> spec_keys_of(allowed@)[q] != spec_fields_of(
                        fields@,
                    )[i as int].0,
            decreases allowed@.len() - j,
        {
            if bytes_eq(&fields[i].key, &allowed[j]) {
                hit = true;
                proof {
                    assert(spec_keys_of(allowed@)[j as int] == spec_fields_of(
                        fields@,
                    )[i as int].0);
                }
            }
            j += 1;
        }
        if !hit {
            proof {
                assert(!spec_keys_of(allowed@).contains(spec_fields_of(fields@)[i as int].0));
            }
            return false;
        }
        i += 1;
    }
    true
}

/// Copies a byte vector.
pub fn clone_bytes(v: &Vec<u8>) -> (r: Vec<u8>)
    ensures
        r@ == v@,
{
    let r = copy_range(v, 0, v.len());
    proof {
        assert(v@.subrange(0, v@.len() as int) =~= v@);
    }
    r
}

/// Validates a metadata blob against one schema kind. Validation is pure:
/// on success the caller gets the blob back, normalized form and content
/// untouched; on failure nothing about the input is accepted.
pub fn validate(kind: NFTMetadataKind, raw: &Vec<u8>) -> (r: Result<Vec<u8>, Error>)
    ensures
        r is Ok <==> spec_valid_metadata(kind, raw@),
        r matches Ok(b) ==> b@ == raw@,
        r matches Err(e) ==> e == Error::InvalidMetadata,
{
    match kind {
        NFTMetadataKind::Raw => Ok(clone_bytes(raw)),
        NFTMetadataKind::CustomValidated => {
            match parse_fields(raw) {
                None => Err(Error::InvalidMetadata),
                Some(fields) => {
                    if fields_distinct(&fields) {
                        Ok(clone_bytes(raw))
                    } else {
                        Err(Error::InvalidMetadata)
                    }
                },
            }
        },
        NFTMetadataKind::CEP78 | NFTMetadataKind::NFT721 => {
            match parse_fields(raw) {
                None => Err(Error::InvalidMetadata),
                Some(fields) => {
                    if !fields_distinct(&fields) {
                        return Err(Error::InvalidMetadata);
                    }
                    let mand = mandatory_keys(kind);
                    let mut k: usize = 0;
                    while k < mand.len()
                        invariant
                            kind == NFTMetadataKind::CEP78 || kind == NFTMetadataKind::NFT721,
                            k <= mand@.len(),
                            spec_parse(raw@) == Some(spec_fields_of(fields@)),
                            spec_keys_of(mand@) == spec_mandatory_keys(kind),
                            forall|q: int|
                                0 <= q < k ==> spec_has_key(
                                    spec_fields_of(fields@),
                                    spec_keys_of(mand@)[q],
                                ),
                        decreases mand@.len() - k,
                    {
                        if !fields_have_key(&fields, &mand[k]) {
                            proof {
                                assert(!spec_has_key(
                                    spec_fields_of(fields@),
                                    spec_mandatory_keys(kind)[k as int],
                                ));
                            }
                            return Err(Error::InvalidMetadata);
                        }
                        k += 1;
                    }
                    if !fields_only_keys(&fields, &mand) {
                        return Err(Error::InvalidMetadata);
                    }
                    Ok(clone_bytes(raw))
                },
            }
        },
    }
}

} // verus!
