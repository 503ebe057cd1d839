use vstd::prelude::*;

verus! {

/// Offset basis of the 64-bit FNV-1a hash.
pub const FNV_OFFSET: u64 = 0xcbf2_9ce4_8422_2325;

/// Prime of the 64-bit FNV-1a hash.
pub const FNV_PRIME: u64 = 0x0000_0100_0000_01b3;

/// One FNV-1a round: fold one byte into the running hash.
pub open spec fn spec_hash_step(h: u64, b: u8) -> u64 {
    (h ^ (b as u64)).wrapping_mul(FNV_PRIME)
}

/// The running hash after folding all of `s` into `h`, front to back.
pub open spec fn spec_hash_from(h: u64, s: Seq<u8>) -> u64
    decreases s.len(),
{
    if s.len() == 0 {
        h
    } else {
        spec_hash_from(spec_hash_step(h, s[0]), s.drop_first())
    }
}

/// The content hash the registry assigns in hash identifier mode: 64-bit
/// FNV-1a over the metadata bytes. Deterministic in the bytes alone.
pub open spec fn spec_content_hash(s: Seq<u8>) -> u64 {
    spec_hash_from(FNV_OFFSET, s)
}

/// Computes the content hash of a metadata blob.
pub fn content_hash(data: &Vec<u8>) -> (r: u64)
    ensures
        r == spec_content_hash(data@),
{
    let mut h: u64 = FNV_OFFSET;
    let mut i: usize = 0;
    proof {
        assert(data@.skip(0) =~= data@);
    }
    while i < data.len()
        invariant
            i <= data@.len(),
            spec_hash_from(h, data@.skip(i as int)) == spec_content_hash(data@),
        decreases data@.len() - i,
    {
        let ghost pre = data@.skip(i as int);
        h = (h ^ (data[i] as u64)).wrapping_mul(FNV_PRIME);
        i = i + 1;
        proof {
            assert(pre[0] == data@[i - 1]);
            assert(pre.drop_first() =~= data@.skip(i as int));
        }
    }
    proof {
        assert(data@.skip(data@.len() as int) =~= Seq::<u8>::empty());
    }
    h
}

} // verus!
