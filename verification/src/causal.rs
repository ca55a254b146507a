use vstd::prelude::*;
use vstd::string::StringSliceAdditionalSpecFns;

use crate::text::{decimal_of, push_decimal, string_from_chars};

verus! {

/// Offset basis of the 64-bit FNV-1a hash.
pub const FNV_OFFSET_BASIS: u64 = 0xcbf29ce484222325;

/// Prime of the 64-bit FNV-1a hash.
pub const FNV_PRIME: u64 = 0x100000001b3;

/// One FNV-1a round: mix a byte in, then multiply by the prime modulo `2^64`.
pub open spec fn fnv1a_step(hash: u64, byte: u8) -> u64 {
    (((hash ^ (byte as u64)) as nat * FNV_PRIME as nat) % 0x1_0000_0000_0000_0000nat) as u64
}

/// The 64-bit FNV-1a hash of a byte string.
pub open spec fn fnv1a_of(bytes: Seq<u8>) -> u64
    decreases bytes.len(),
{
    if bytes.len() == 0 {
        FNV_OFFSET_BASIS
    } else {
        fnv1a_step(fnv1a_of(bytes.drop_last()), bytes.last())
    }
}

/// The outcome that a payload collapses to among `outcome_count` outcomes: its FNV-1a
/// hash modulo the number of outcomes (so always `0` for a single outcome).
pub fn fnv1a_hash(payload: &str, outcome_count: usize) -> (index: usize)
    requires
        outcome_count > 0,
    ensures
        index == (fnv1a_of(payload.spec_bytes()) as nat) % (outcome_count as nat),
        index < outcome_count,
{
    if outcome_count == 1 {
        return 0;
    }
    let bytes = payload.as_bytes();
    let mut hash: u64 = FNV_OFFSET_BASIS;
    let mut i: usize = 0;
    while i < bytes.len()
        invariant
            i <= bytes@.len(),
            bytes@ == payload.spec_bytes(),
            hash == fnv1a_of(bytes@.subrange(0, i as int)),
        decreases bytes@.len() - i,
    {
        let b = bytes[i];
        assert(bytes@.subrange(0, i as int + 1).drop_last() =~= bytes@.subrange(0, i as int));
        hash = hash ^ (b as u64);
        hash = hash.wrapping_mul(FNV_PRIME);
        i = i + 1;
    }
    assert(bytes@.subrange(0, bytes@.len() as int) =~= bytes@);
    (hash % outcome_count as u64) as usize
}

/// The boundary address of coordinate `(i, j)`: `C[i,j]` with decimal indices.
pub open spec fn boundary_address_of(i: nat, j: nat) -> Seq<char> {
    seq!['C', '['] + decimal_of(i) + seq![','] + decimal_of(j) + seq![']']
}

/// The boundary address of coordinate `(i, j)`, as `boundary_address_of` states.
pub fn boundary_address(i: usize, j: usize) -> (s: String)
    ensures
        s@ == boundary_address_of(i as nat, j as nat),
{
    let mut v: Vec<char> = Vec::new();
    v.push('C');
    v.push('[');
    push_decimal(&mut v, i);
    v.push(',');
    push_decimal(&mut v, j);
    v.push(']');
    assert(v@ =~= boundary_address_of(i as nat, j as nat));
    string_from_chars(&v)
}

} // verus!
