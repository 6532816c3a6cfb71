use vstd::prelude::*;
use crate::ranking::{lists_view, merge_top_k, top_k, Match};

verus! {

/// Recall of one query or of a batch as a fraction: `hits` of `slots`.
#[derive(Clone, Copy, Debug, PartialEq, Eq, Structural)]
pub struct Recall {
    pub hits: u64,
    pub slots: u64,
}

/// The number of distinct keys that the prediction and the ground truth
/// share.
pub open spec fn shared_keys(predicted: Seq<u64>, truth: Seq<u64>) -> nat {
    predicted.to_set().intersect(truth.to_set()).len()
}

/// The keys of a sequence of matches.
pub open spec fn keys_of(m: Seq<Match>) -> Seq<u64> {
    m.map_values(|x: Match| x.key)
}

/// The sum of a sequence of counts.
pub open spec fn total(s: Seq<u64>) -> int
    decreases s.len(),
{
    if s.len() == 0 {
        0
    } else {
        total(s.drop_last()) + s.last()
    }
}

fn seq_contains(v: &Vec<u64>, end: usize, key: u64) -> (r: bool)
    requires
        end <= v@.len(),
    ensures
        r == v@.take(end as int).contains(key),
{
    let mut i: usize = 0;
    while i < end
        invariant
            i <= end <= v@.len(),
            forall|j: int| 0 <= j < i ==> v@[j] != key,
        decreases end - i,
    {
        if v[i] == key {
            assert(v@.take(end as int)[i as int] == key);
            return true;
        }
        i = i + 1;
    }
    false
}

/// The number of distinct keys of `predicted` that also occur in `truth`.
pub fn recall_hits(predicted: &Vec<u64>, truth: &Vec<u64>) -> (r: u64)
    ensures
        r == shared_keys(predicted@, truth@),
        r <= predicted@.len(),
{
    let ghost t = truth@.to_set();
    let mut count: u64 = 0;
    let mut i: usize = 0;
    proof {
        assert(predicted@.take(0).to_set().intersect(t) =~= Set::<u64>::empty());
    }
    while i < predicted.len()
        invariant
            i <= predicted@.len(),
            t == truth@.to_set(),
            count == predicted@.take(i as int).to_set().intersect(t).len(),
            count <= i,
        decreases predicted.len() - i,
    {
        let key = predicted[i];
        let ghost prev = predicted@.take(i as int).to_set();
        proof {
            assert(predicted@.take(i + 1) =~= predicted@.take(i as int).push(key));
            predicted@.take(i as int).lemma_push_to_set_commute(key);
            assert(predicted@.take(i + 1).to_set() =~= prev.insert(key));
        }
        let fresh = !seq_contains(predicted, i, key);
        let hit = seq_contains(truth, truth.len(), key);
        proof {
            assert(truth@.take(truth@.len() as int) =~= truth@);
            if fresh && hit {
                assert(prev.insert(key).intersect(t) =~= prev.intersect(t).insert(key));
                assert(!prev.intersect(t).contains(key));
            } else if hit {
                assert(prev.insert(key).intersect(t) =~= prev.intersect(t));
            } else {
                assert(prev.insert(key).intersect(t) =~= prev.intersect(t));
            }
        }
        if fresh && hit {
            count = count + 1;
        }
        i = i + 1;
    }
    proof {
        assert(predicted@.take(i as int) =~= predicted@);
    }
    count
}

/// Recall@k of a predicted result against a ground truth: the shared keys
/// out of `k`.
pub fn recall_at_k(predicted: &Vec<Match>, truth: &Vec<Match>, k: u64) -> (r: Recall)
    ensures
        r.hits == shared_keys(keys_of(predicted@), keys_of(truth@)),
        r.slots == k,
        predicted@.len() <= k ==> r.hits <= r.slots,
{
    let p = match_keys(predicted);
    let t = match_keys(truth);
    let hits = recall_hits(&p, &t);
    Recall { hits, slots: k }
}

/// The keys of `m`, in order.
pub fn match_keys(m: &Vec<Match>) -> (r: Vec<u64>)
    ensures
        r@ == keys_of(m@),
{
    let mut out: Vec<u64> = Vec::with_capacity(m.len());
    let mut i: usize = 0;
    while i < m.len()
        invariant
            i <= m@.len(),
            out@ =~= keys_of(m@).take(i as int),
        decreases m.len() - i,
    {
        out.push(m[i].key);
        i = i + 1;
    }
    proof {
        assert(keys_of(m@).take(i as int) =~= keys_of(m@));
    }
    out
}

/// The ground truth of one query and the recall of the reranked result
/// against it: the per-shard exact results merged and cut to `k`, then the
/// keys they share with `reranked`, out of `k`.
pub fn evaluate_query(reranked: &Vec<Match>, per_shard_exact: &Vec<Vec<Match>>, k: usize) -> (r: (
    Vec<Match>,
    Recall,
))
    ensures
        r.0@ == top_k(lists_view(per_shard_exact@).flatten(), k as nat),
        r.1.hits == shared_keys(keys_of(reranked@), keys_of(r.0@)),
        r.1.slots == k,
        reranked@.len() <= k ==> r.1.hits <= r.1.slots,
{
    let truth = merge_top_k(per_shard_exact, k);
    let recall = recall_at_k(reranked, &truth, k as u64);
    (truth, recall)
}

/// The mean recall of a batch of queries evaluated at the same `k`: all hits
/// out of `k` slots per query. `None` for an empty batch.
pub fn mean_recall(recalls: &Vec<Recall>) -> (r: Option<Recall>)
    requires
        recalls@.len() > 0 ==> forall|i: int|
            0 <= i < recalls@.len() ==> (#[trigger] recalls@[i]).slots == recalls@[0].slots
                && recalls@[i].hits <= recalls@[i].slots,
        recalls@.len() * (if recalls@.len() > 0 { recalls@[0].slots as int } else { 0 }) <= u64::MAX,
    ensures
        r is Some <==> recalls@.len() > 0,
        r is Some ==> r->Some_0.hits == total(recalls@.map_values(|x: Recall| x.hits)),
        r is Some ==> r->Some_0.slots == recalls@.len() * recalls@[0].slots,
        r is Some ==> r->Some_0.hits <= r->Some_0.slots,
{
    if recalls.len() == 0 {
        return None;
    }
    let ghost hits = recalls@.map_values(|x: Recall| x.hits);
    let k = recalls[0].slots;
    let mut sum: u64 = 0;
    let mut slots: u64 = 0;
    let mut i: usize = 0;
    while i < recalls.len()
        invariant
            0 < recalls@.len(),
            i <= recalls@.len(),
            k == recalls@[0].slots,
            hits == recalls@.map_values(|x: Recall| x.hits),
            forall|j: int| 0 <= j < recalls@.len() ==> (#[trigger] recalls@[j]).slots == k
                && recalls@[j].hits <= k,
            recalls@.len() * k <= u64::MAX,
            sum == total(hits.take(i as int)),
            slots == i * k,
            sum <= slots,
        decreases recalls.len() - i,
    {
        proof {
            assert(hits.take(i + 1).drop_last() =~= hits.take(i as int));
            vstd::arithmetic::mul::lemma_mul_inequality(i + 1, recalls@.len() as int, k as int);
            assert((i + 1) * k == i * k + k) by (nonlinear_arith);
        }
        sum = sum + recalls[i].hits;
        slots = slots + k;
        i = i + 1;
    }
    proof {
        assert(hits.take(i as int) =~= hits);
    }
    Some(Recall { hits: sum, slots })
}

} // verus!
