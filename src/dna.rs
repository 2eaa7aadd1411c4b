use vstd::prelude::*;

verus! {

/// The 16-byte Blake2b digest of `data`.
pub uninterp spec fn blake2_128_of(data: Seq<u8>) -> Seq<u8>;

/// Relies on sp_io::hashing::blake2_128: the 128-bit Blake2b digest of the
/// bytes, which depends on them alone.
#[verifier::external_body]
fn blake2_128(data: &Vec<u8>) -> (r: [u8; 16])
    ensures
        r@ == blake2_128_of(data@),
{
    sp_io::hashing::blake2_128(data.as_slice())
}

/// The `n` low-order bytes of `x`, least significant first.
pub open spec fn le_bytes(x: u64, n: nat) -> Seq<u8> {
    Seq::new(n, |i: int| ((x >> (8 * i) as u64) & 0xff) as u8)
}

/// SCALE encoding of an optional 32-bit index: a tag byte, then the index
/// in little-endian order where there is one.
pub open spec fn option_u32_encoding(x: Option<u32>) -> Seq<u8> {
    match x {
        None => seq![0u8],
        Some(n) => seq![1u8] + le_bytes(n as u64, 4),
    }
}

/// SCALE encoding of the tuple (random seed, sender, extrinsic index) that
/// a kitty's random bytes are hashed from.
pub open spec fn random_payload(seed: Seq<u8>, sender: u64, extrinsic_index: Option<u32>) -> Seq<u8> {
    seed + le_bytes(sender, 8) + option_u32_encoding(extrinsic_index)
}

/// Appends the `n` low-order bytes of `x`, least significant first.
fn push_le(out: &mut Vec<u8>, x: u64, n: u64)
    requires
        n <= 8,
    ensures
        final(out)@ == old(out)@ + le_bytes(x, n as nat),
{
    let ghost start = out@;
    let mut i: u64 = 0;
    while i < n
        invariant
            i <= n <= 8,
            out@ == start + le_bytes(x, i as nat),
        decreases n - i,
    {
        let b = ((x >> (8 * i)) & 0xff) as u8;
        out.push(b);
        assert(out@ =~= start + le_bytes(x, (i + 1) as nat));
        i = i + 1;
    }
}

/// The random bytes for a new kitty: the Blake2b-128 digest of the encoded
/// random seed, sender and extrinsic index.
pub fn random_value(seed: &[u8; 32], sender: u64, extrinsic_index: Option<u32>) -> (r: [u8; 16])
    ensures
        r@ == blake2_128_of(random_payload(seed@, sender, extrinsic_index)),
{
    let mut payload: Vec<u8> = Vec::new();
    let mut i: usize = 0;
    while i < 32
        invariant
            i <= 32,
            seed@.len() == 32,
            payload@ == seed@.subrange(0, i as int),
        decreases 32 - i,
    {
        payload.push(seed[i]);
        assert(payload@ =~= seed@.subrange(0, i + 1));
        i = i + 1;
    }
    assert(seed@.subrange(0, 32) =~= seed@);
    push_le(&mut payload, sender, 8);
    match extrinsic_index {
        None => {
            payload.push(0u8);
        },
        Some(n) => {
            payload.push(1u8);
            push_le(&mut payload, n as u64, 4);
        },
    }
    assert(payload@ =~= random_payload(seed@, sender, extrinsic_index));
    blake2_128(&payload)
}

} // verus!
