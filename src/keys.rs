use vstd::prelude::*;
use crate::error::PipelineError;

verus! {

/// The global key of the vector at `local` within shard `shard_id`, when
/// every shard holds `capacity` keys.
pub open spec fn key_of(shard_id: int, capacity: int, local: int) -> int {
    shard_id * capacity + local
}

/// Whether every key of shard `shard_id` fits in 64 bits.
pub open spec fn shard_fits(shard_id: int, capacity: int) -> bool {
    capacity == 0 || key_of(shard_id, capacity, capacity - 1) <= u64::MAX
}

/// Seed of the vector source of each shard is its id times this stride.
pub const SEED_STRIDE: u64 = 1000;

/// The global key of the vector at `local` in shard `shard_id`.
///
/// Fails with `Capacity` when `local` is not below `capacity` or the key
/// does not fit in 64 bits.
pub fn shard_key(shard_id: usize, capacity: usize, local: usize) -> (r: Result<u64, PipelineError>)
    ensures
        local < capacity && key_of(shard_id as int, capacity as int, local as int) <= u64::MAX
            <==> r is Ok,
        r is Ok ==> r->Ok_0 == key_of(shard_id as int, capacity as int, local as int),
        r is Err ==> r->Err_0 == PipelineError::Capacity,
{
    if local >= capacity {
        return Err(PipelineError::Capacity);
    }
    match (shard_id as u64).checked_mul(capacity as u64) {
        Some(base) => match base.checked_add(local as u64) {
            Some(key) => Ok(key),
            None => Err(PipelineError::Capacity),
        },
        None => Err(PipelineError::Capacity),
    }
}

/// The keys of shard `shard_id` in insertion order: `capacity` consecutive
/// keys starting at `shard_id * capacity`.
///
/// Fails with `Capacity` when the last of them does not fit in 64 bits.
pub fn shard_keys(shard_id: usize, capacity: usize) -> (r: Result<Vec<u64>, PipelineError>)
    ensures
        shard_fits(shard_id as int, capacity as int) <==> r is Ok,
        r is Ok ==> r->Ok_0@.len() == capacity,
        r is Ok ==> forall|i: int|
            0 <= i < capacity ==> r->Ok_0@[i] == key_of(shard_id as int, capacity as int, i),
        r is Err ==> r->Err_0 == PipelineError::Capacity,
{
    if capacity == 0 {
        return Ok(Vec::new());
    }
    let last = shard_key(shard_id, capacity, capacity - 1);
    if last.is_err() {
        return Err(PipelineError::Capacity);
    }
    let base: u64 = shard_id as u64 * capacity as u64;
    let mut keys: Vec<u64> = Vec::with_capacity(capacity);
    let mut i: usize = 0;
    while i < capacity
        invariant
            i <= capacity,
            base == shard_id * capacity,
            base + capacity - 1 <= u64::MAX,
            keys@.len() == i,
            forall|j: int| 0 <= j < i ==> keys@[j] == key_of(shard_id as int, capacity as int, j),
        decreases capacity - i,
    {
        keys.push(base + i as u64);
        i = i + 1;
    }
    Ok(keys)
}

/// The shard that owns `key` when every shard holds `capacity` keys.
pub fn owner_shard(key: u64, capacity: usize) -> (r: u64)
    requires
        capacity > 0,
    ensures
        r as int == key as int / capacity as int,
{
    key / capacity as u64
}

/// Seed of the vector source of shard `shard_id`; `None` when it does not
/// fit in 64 bits.
pub fn shard_seed(shard_id: usize) -> (r: Option<u64>)
    ensures
        shard_id * SEED_STRIDE <= u64::MAX <==> r is Some,
        r is Some ==> r->Some_0 == shard_id * SEED_STRIDE,
{
    (shard_id as u64).checked_mul(SEED_STRIDE)
}

/// Key ranges of distinct shards are disjoint, and a key names its shard
/// and its place in that shard: the assignment of keys is a bijection from
/// (shard, local index) pairs.
pub proof fn lemma_keys_disjoint(capacity: int, s1: int, i1: int, s2: int, i2: int)
    requires
        capacity > 0,
        s1 >= 0,
        s2 >= 0,
        0 <= i1 < capacity,
        0 <= i2 < capacity,
    ensures
        key_of(s1, capacity, i1) / capacity == s1,
        key_of(s1, capacity, i1) % capacity == i1,
        key_of(s1, capacity, i1) == key_of(s2, capacity, i2) <==> s1 == s2 && i1 == i2,
{
    vstd::arithmetic::div_mod::lemma_fundamental_div_mod_converse(
        key_of(s1, capacity, i1),
        capacity,
        s1,
        i1,
    );
    vstd::arithmetic::div_mod::lemma_fundamental_div_mod_converse(
        key_of(s2, capacity, i2),
        capacity,
        s2,
        i2,
    );
}

} // verus!
