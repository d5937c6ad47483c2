use vstd::prelude::*;

verus! {

/// The 64-bit FNV-1a offset basis.
pub const FNV_OFFSET: u64 = 0xcbf29ce484222325;

/// The 64-bit FNV prime.
pub const FNV_PRIME: u64 = 0x100000001b3;

/// One FNV-1a step: xor the byte in, multiply by the prime modulo 2^64.
pub open spec fn fnv_step(h: u64, b: u8) -> u64 {
    ((((h ^ (b as u64)) as nat) * (FNV_PRIME as nat)) % 0x10000000000000000nat) as u64
}

/// FNV-1a of `bytes`, starting from `h`.
pub open spec fn fnv1a(bytes: Seq<u8>, h: u64) -> u64
    decreases bytes.len(),
{
    if bytes.len() == 0 {
        h
    } else {
        fnv_step(fnv1a(bytes.drop_last(), h), bytes.last())
    }
}

/// Continues an FNV-1a hash over `bytes`.
pub fn fnv1a_bytes(bytes: &[u8], h: u64) -> (r: u64)
    ensures
        r == fnv1a(bytes@, h),
{
    let mut acc = h;
    let mut i: usize = 0;
    while i < bytes.len()
        invariant
            i <= bytes.len(),
            acc == fnv1a(bytes@.take(i as int), h),
        decreases bytes.len() - i,
    {
        proof {
            assert(bytes@.take((i + 1) as int).drop_last() =~= bytes@.take(i as int));
        }
        acc = (acc ^ (bytes[i] as u64)).wrapping_mul(FNV_PRIME);
        i = i + 1;
    }
    assert(bytes@.take(bytes.len() as int) =~= bytes@);
    acc
}

} // verus!
