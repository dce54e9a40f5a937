//! Stable identifiers derived from names and segment sets.
use vstd::prelude::*;
use vstd::string::StringSliceAdditionalSpecFns;

verus! {

/// FNV-1a over a byte string.
pub open spec fn fnv1a(bytes: Seq<u8>) -> u64
    decreases bytes.len(),
{
    if bytes.len() == 0 {
        0xcbf29ce484222325
    } else {
        (fnv1a(bytes.drop_last()) ^ (bytes.last() as u64)).wrapping_mul(0x100000001b3)
    }
}

/// Process-independent identifier of an owner name. It correlates one table
/// across samples without publishing its name.
pub fn runtime_owner_id(name: &str) -> (id: u64)
    ensures
        id == fnv1a(name.spec_bytes()),
{
    let bytes: &[u8] = name.as_bytes();
    let mut hash: u64 = 0xcbf29ce484222325;
    let mut i: usize = 0;
    while i < bytes.len()
        invariant
            bytes@ == name.spec_bytes(),
            0 <= i <= bytes@.len(),
            hash == fnv1a(bytes@.take(i as int)),
        decreases bytes@.len() - i,
    {
        hash = (hash ^ (bytes[i] as u64)).wrapping_mul(0x100000001b3);
        i = i + 1;
        assert(bytes@.take(i as int).drop_last() =~= bytes@.take(i - 1));
    }
    assert(bytes@.take(i as int) =~= bytes@);
    hash
}

pub open spec fn rotated_left_17(x: u64) -> u64 {
    (x << 17u64) | (x >> 47u64)
}

/// Segment identities folded into a seed.
pub open spec fn folded_segments(seed: u64, segment_ids: Seq<u64>) -> u64
    decreases segment_ids.len(),
{
    if segment_ids.len() == 0 {
        seed
    } else {
        folded_segments(seed, segment_ids.drop_last()).wrapping_mul(0x100000001b3).wrapping_add(
            segment_ids.last(),
        )
    }
}

pub open spec fn job_signature(name: Seq<u8>, schema_epoch: u64, segment_ids: Seq<u64>) -> u64 {
    let folded = folded_segments(fnv1a(name) ^ rotated_left_17(schema_epoch), segment_ids);
    if folded == 0 {
        1
    } else {
        folded
    }
}

/// Signature of one exact compaction input set; never zero.
pub fn compaction_job_signature(
    table_name: &str,
    schema_epoch: u64,
    segment_ids: &Vec<u64>,
) -> (signature: u64)
    ensures
        signature == job_signature(table_name.spec_bytes(), schema_epoch, segment_ids@),
        signature != 0,
{
    let seed: u64 = runtime_owner_id(table_name) ^ ((schema_epoch << 17u64) | (schema_epoch
        >> 47u64));
    let mut signature: u64 = seed;
    let mut i: usize = 0;
    while i < segment_ids.len()
        invariant
            0 <= i <= segment_ids@.len(),
            signature == folded_segments(seed, segment_ids@.take(i as int)),
        decreases segment_ids@.len() - i,
    {
        signature = signature.wrapping_mul(0x100000001b3).wrapping_add(segment_ids[i]);
        i = i + 1;
        assert(segment_ids@.take(i as int).drop_last() =~= segment_ids@.take(i - 1));
    }
    assert(segment_ids@.take(i as int) =~= segment_ids@);
    if signature < 1 {
        1
    } else {
        signature
    }
}

} // verus!
