use vstd::prelude::*;
use crate::error::PipelineError;
use crate::ranking::{is_ranked_result, Match};

verus! {

/// A key found by a shard's approximate search, tagged with that shard.
#[derive(Clone, Copy, Debug, PartialEq, Eq, Structural)]
pub struct Candidate {
    pub key: u64,
    pub shard: usize,
}

/// The keys of one shard tagged with its id.
pub open spec fn tag(keys: Seq<u64>, shard: int) -> Seq<Candidate> {
    keys.map_values(|k: u64| Candidate { key: k, shard: shard as usize })
}

/// Every shard's keys tagged with the shard's position, concatenated in
/// shard order.
pub open spec fn fan_out_spec(lists: Seq<Seq<u64>>) -> Seq<Candidate> {
    lists.map(|s: int, l: Seq<u64>| tag(l, s)).flatten()
}

/// The contents of a list of per-shard key vectors, as sequences.
pub open spec fn key_lists_view(v: Seq<Vec<u64>>) -> Seq<Seq<u64>> {
    v.map_values(|l: Vec<u64>| l@)
}

/// Whether some candidate carries `key`.
pub open spec fn has_key(c: Seq<Candidate>, key: u64) -> bool {
    exists|i: int| 0 <= i < c.len() && c[i].key == key
}

/// Tags the keys that each shard returned with that shard's position and
/// concatenates them in shard order, with no ranking or deduplication.
pub fn fan_out(per_shard: &Vec<Vec<u64>>) -> (r: Vec<Candidate>)
    ensures
        r@ == fan_out_spec(key_lists_view(per_shard@)),
{
    let ghost lists = key_lists_view(per_shard@);
    let ghost tagged = lists.map(|s: int, l: Seq<u64>| tag(l, s));
    let mut out: Vec<Candidate> = Vec::new();
    let mut s: usize = 0;
    while s < per_shard.len()
        invariant
            s <= per_shard.len(),
            lists == key_lists_view(per_shard@),
            tagged == lists.map(|s: int, l: Seq<u64>| tag(l, s)),
            out@ == tagged.take(s as int).flatten(),
        decreases per_shard.len() - s,
    {
        let keys = &per_shard[s];
        let ghost before = tagged.take(s as int).flatten();
        let mut i: usize = 0;
        while i < keys.len()
            invariant
                i <= keys.len(),
                out@ == before + tag(keys@.take(i as int), s as int),
            decreases keys.len() - i,
        {
            out.push(Candidate { key: keys[i], shard: s });
            proof {
                assert(tag(keys@.take(i + 1), s as int) =~= tag(keys@.take(i as int), s as int).push(
                    Candidate { key: keys@[i as int], shard: s },
                ));
                assert(out@ =~= before + tag(keys@.take(i + 1), s as int));
            }
            i = i + 1;
        }
        proof {
            assert(keys@.take(i as int) =~= keys@);
            assert(tagged[s as int] == tag(keys@, s as int));
            assert(tagged.take(s + 1) =~= tagged.take(s as int).push(tagged[s as int]));
            tagged.take(s as int).lemma_flatten_push(tagged[s as int]);
        }
        s = s + 1;
    }
    proof {
        assert(tagged.take(s as int) =~= tagged);
    }
    out
}

/// When no shard returns more than `per_shard_limit` keys, the fan-out holds
/// at most `shards * per_shard_limit` candidates.
pub proof fn lemma_fan_out_bound(lists: Seq<Seq<u64>>, per_shard_limit: nat)
    requires
        forall|s: int| 0 <= s < lists.len() ==> (#[trigger] lists[s]).len() <= per_shard_limit,
    ensures
        fan_out_spec(lists).len() <= lists.len() * per_shard_limit,
{
    let tagged = lists.map(|s: int, l: Seq<u64>| tag(l, s));
    assert forall|s: int| 0 <= s < tagged.len() implies (#[trigger] tagged[s]).len()
        <= per_shard_limit by {
        assert(lists[s].len() <= per_shard_limit);
    }
    tagged.lemma_flatten_length_le_mul(per_shard_limit as int);
    tagged.lemma_flatten_and_flatten_alt_are_equivalent();
}

/// Every candidate of a fan-out carries a key that the shard it is tagged
/// with returned.
pub proof fn lemma_fan_out_origin(lists: Seq<Seq<u64>>, i: int)
    requires
        0 <= i < fan_out_spec(lists).len(),
        lists.len() <= usize::MAX,
    ensures
        0 <= fan_out_spec(lists)[i].shard < lists.len(),
        lists[fan_out_spec(lists)[i].shard as int].contains(fan_out_spec(lists)[i].key),
    decreases lists.len(),
{
    let tagged = lists.map(|s: int, l: Seq<u64>| tag(l, s));
    let n = lists.len() - 1;
    let init = lists.drop_last();
    assert(init.map(|s: int, l: Seq<u64>| tag(l, s)) =~= tagged.drop_last());
    assert(tagged.drop_last().push(tagged.last()) =~= tagged);
    tagged.drop_last().lemma_flatten_push(tagged.last());
    let front = tagged.drop_last().flatten();
    if i < front.len() {
        lemma_fan_out_origin(init, i);
        assert(fan_out_spec(lists)[i] == fan_out_spec(init)[i]);
        assert(lists[fan_out_spec(lists)[i].shard as int] == init[fan_out_spec(lists)[i].shard as int]);
    } else {
        let j = i - front.len();
        assert(tagged.last() == tag(lists[n], n));
        assert(fan_out_spec(lists)[i] == tag(lists[n], n)[j]);
        assert(lists[n][j] == fan_out_spec(lists)[i].key);
        assert(fan_out_spec(lists)[i].shard == n);
        assert(lists[n].contains(fan_out_spec(lists)[i].key));
    }
}

/// Reranking never invents keys: a result accepted against the fan-out of
/// the shards' answers holds only keys that some shard returned.
pub proof fn lemma_reranked_keys_from_shards(
    lists: Seq<Seq<u64>>,
    keys: Seq<u64>,
    distances: Seq<u32>,
    k: nat,
)
    requires
        rerank_acceptable(fan_out_spec(lists), keys, distances, k),
        lists.len() <= usize::MAX,
    ensures
        forall|i: int|
            0 <= i < keys.len() ==> exists|s: int|
                0 <= s < lists.len() && (#[trigger] lists[s]).contains(#[trigger] keys[i]),
{
    assert forall|i: int| 0 <= i < keys.len() implies exists|s: int|
        0 <= s < lists.len() && (#[trigger] lists[s]).contains(#[trigger] keys[i]) by {
        assert(has_key(fan_out_spec(lists), keys[i]));
        let c = choose|c: int| 0 <= c < fan_out_spec(lists).len() && fan_out_spec(lists)[c].key == keys[i];
        lemma_fan_out_origin(lists, c);
        let s = fan_out_spec(lists)[c].shard as int;
        assert(lists[s].contains(keys[i]));
    }
}

/// The shard of the first candidate that carries `key`, if any.
pub fn origin_of(candidates: &Vec<Candidate>, key: u64) -> (r: Option<usize>)
    ensures
        r is Some <==> has_key(candidates@, key),
        r is Some ==> exists|i: int|
            0 <= i < candidates@.len() && candidates@[i].key == key && candidates@[i].shard
                == r->Some_0 && forall|j: int| 0 <= j < i ==> candidates@[j].key != key,
{
    let mut i: usize = 0;
    while i < candidates.len()
        invariant
            i <= candidates.len(),
            forall|j: int| 0 <= j < i ==> candidates@[j].key != key,
        decreases candidates.len() - i,
    {
        if candidates[i].key == key {
            return Some(candidates[i].shard);
        }
        i = i + 1;
    }
    None
}

/// Whether `key` is the key of some candidate.
fn contains_key(candidates: &Vec<Candidate>, key: u64) -> (r: bool)
    ensures
        r == has_key(candidates@, key),
{
    origin_of(candidates, key).is_some()
}

/// Whether the result of a rerank search can be accepted for `k`: one
/// distance per key, at most `k` entries, ascending distances, and only keys
/// of the submitted candidates.
pub open spec fn rerank_acceptable(
    candidates: Seq<Candidate>,
    keys: Seq<u64>,
    distances: Seq<u32>,
    k: nat,
) -> bool {
    &&& keys.len() == distances.len()
    &&& keys.len() <= k
    &&& forall|i: int, j: int| 0 <= i <= j < distances.len() ==> distances[i] <= distances[j]
    &&& forall|i: int| 0 <= i < keys.len() ==> has_key(candidates, #[trigger] keys[i])
}

/// Checks the exact search over the candidate set and pairs its keys with
/// their distances.
///
/// Fails with `Search` when the result breaks what a reranked result must
/// be: every returned key is a submitted candidate, the distances ascend and
/// at most `k` matches come back.
pub fn accept_rerank(
    candidates: &Vec<Candidate>,
    keys: &Vec<u64>,
    distances: &Vec<u32>,
    k: usize,
) -> (r: Result<Vec<Match>, PipelineError>)
    ensures
        r is Ok <==> rerank_acceptable(candidates@, keys@, distances@, k as nat),
        r is Err ==> r->Err_0 == PipelineError::Search,
        r is Ok ==> r->Ok_0@.len() == keys@.len(),
        r is Ok ==> forall|i: int|
            0 <= i < keys@.len() ==> r->Ok_0@[i] == (Match { key: keys@[i], distance: distances@[i] }),
        r is Ok ==> is_ranked_result(r->Ok_0@, k as nat),
        r is Ok ==> forall|i: int| 0 <= i < r->Ok_0@.len() ==> has_key(candidates@, #[trigger] r->Ok_0@[i].key),
{
    if keys.len() != distances.len() || keys.len() > k {
        return Err(PipelineError::Search);
    }
    let mut out: Vec<Match> = Vec::with_capacity(keys.len());
    let mut i: usize = 0;
    while i < keys.len()
        invariant
            i <= keys.len(),
            keys@.len() == distances@.len(),
            keys@.len() <= k,
            out@.len() == i,
            forall|j: int| 0 <= j < i ==> out@[j] == (Match { key: keys@[j], distance: distances@[j] }),
            forall|j: int| 0 <= j < i ==> has_key(candidates@, #[trigger] keys@[j]),
            forall|a: int, b: int| 0 <= a <= b < i ==> distances@[a] <= distances@[b],
        decreases keys.len() - i,
    {
        if !contains_key(candidates, keys[i]) {
            return Err(PipelineError::Search);
        }
        if i > 0 && distances[i - 1] > distances[i] {
            return Err(PipelineError::Search);
        }
        out.push(Match { key: keys[i], distance: distances[i] });
        i = i + 1;
    }
    Ok(out)
}

/// No two candidates carry the same key.
pub open spec fn keys_unique(c: Seq<Candidate>) -> bool {
    forall|i: int, j: int| 0 <= i < j < c.len() ==> c[i].key != c[j].key
}

/// Rejects a candidate set in which two candidates carry the same key, as
/// happens when shards were built with overlapping key ranges; the error
/// names the key of the earliest second occurrence.
pub fn check_unique_keys(candidates: &Vec<Candidate>) -> (r: Result<(), PipelineError>)
    ensures
        r is Ok <==> keys_unique(candidates@),
        r is Err ==> exists|i: int, j: int|
            0 <= i < j < candidates@.len() && candidates@[i].key == candidates@[j].key
                && keys_unique(candidates@.take(j)) && r->Err_0 == (PipelineError::DuplicateKey {
                key: candidates@[j].key,
            }),
{
    let mut j: usize = 0;
    while j < candidates.len()
        invariant
            j <= candidates@.len(),
            keys_unique(candidates@.take(j as int)),
        decreases candidates.len() - j,
    {
        let key = candidates[j].key;
        let mut i: usize = 0;
        while i < j
            invariant
                i <= j < candidates@.len(),
                key == candidates@[j as int].key,
                keys_unique(candidates@.take(j as int)),
                forall|a: int| 0 <= a < i ==> candidates@[a].key != key,
            decreases j - i,
        {
            if candidates[i].key == key {
                return Err(PipelineError::DuplicateKey { key });
            }
            i = i + 1;
        }
        proof {
            let t = candidates@.take(j + 1);
            assert forall|a: int, b: int| 0 <= a < b < t.len() implies #[trigger] t[a].key
                != #[trigger] t[b].key by {
                if b < j {
                    assert(candidates@.take(j as int)[a] == candidates@[a]);
                    assert(candidates@.take(j as int)[b] == candidates@[b]);
                }
            }
        }
        j = j + 1;
    }
    proof {
        assert(candidates@.take(j as int) =~= candidates@);
    }
    Ok(())
}

/// Interprets the count of vectors that a shard returned for `key`: none
/// means the shard does not hold the key.
pub fn check_fetched(key: u64, shard: usize, found: usize) -> (r: Result<(), PipelineError>)
    ensures
        r is Ok <==> found > 0,
        r is Err ==> r->Err_0 == (PipelineError::KeyNotFound { key, shard }),
{
    if found == 0 {
        Err(PipelineError::KeyNotFound { key, shard })
    } else {
        Ok(())
    }
}

} // verus!
