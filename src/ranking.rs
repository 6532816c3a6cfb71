use vstd::prelude::*;

verus! {

/// One search hit: a key and its distance to the query, lower meaning more
/// similar. The distance is held as an order key (see `distance_order_key`),
/// so that comparing two distances is comparing two integers.
#[derive(Clone, Copy, Debug, PartialEq, Eq, Structural)]
pub struct Match {
    pub key: u64,
    pub distance: u32,
}

/// The order key of a 32-bit IEEE-754 value given by its bits: the sign bit
/// is flipped for non-negative values and every bit for negative ones, so
/// that the unsigned order of keys follows the numeric order of the values.
pub open spec fn order_key_of(bits: u32) -> u32 {
    if bits & 0x8000_0000u32 != 0 {
        !bits
    } else {
        bits | 0x8000_0000u32
    }
}

/// Maps the bits of a distance to its order key.
pub fn distance_order_key(bits: u32) -> (r: u32)
    ensures
        r == order_key_of(bits),
{
    if bits & 0x8000_0000u32 != 0 {
        !bits
    } else {
        bits | 0x8000_0000u32
    }
}

/// Order keys follow the numeric order of the values they stand for: larger
/// magnitudes rank higher among non-negative values, lower among negative
/// ones, and every negative value ranks below every non-negative one.
pub proof fn lemma_order_key_monotone(a: u32, b: u32)
    ensures
        a < 0x8000_0000u32 && b < 0x8000_0000u32 && a <= b ==> order_key_of(a) <= order_key_of(b),
        a >= 0x8000_0000u32 && b >= 0x8000_0000u32 && a <= b ==> order_key_of(a) >= order_key_of(b),
        a >= 0x8000_0000u32 && b < 0x8000_0000u32 ==> order_key_of(a) < order_key_of(b),
{
    assert(a < 0x8000_0000u32 && b < 0x8000_0000u32 && a <= b ==> (a | 0x8000_0000u32) <= (b
        | 0x8000_0000u32)) by (bit_vector);
    assert(a < 0x8000_0000u32 ==> a & 0x8000_0000u32 == 0) by (bit_vector);
    assert(b < 0x8000_0000u32 ==> b & 0x8000_0000u32 == 0) by (bit_vector);
    assert(a >= 0x8000_0000u32 ==> a & 0x8000_0000u32 != 0) by (bit_vector);
    assert(b >= 0x8000_0000u32 ==> b & 0x8000_0000u32 != 0) by (bit_vector);
    assert(a >= 0x8000_0000u32 && b >= 0x8000_0000u32 && a <= b ==> !a >= !b) by (bit_vector);
    assert(a >= 0x8000_0000u32 && b < 0x8000_0000u32 ==> !a < (b | 0x8000_0000u32))
        by (bit_vector);
}

/// Distances never decrease along the sequence.
pub open spec fn is_ascending(s: Seq<Match>) -> bool {
    forall|i: int, j: int| 0 <= i <= j < s.len() ==> s[i].distance <= s[j].distance
}

/// A well-formed ranked result for `k`: at most `k` matches, ascending.
pub open spec fn is_ranked_result(s: Seq<Match>, k: nat) -> bool {
    s.len() <= k && is_ascending(s)
}

/// Places `m` after every match whose distance is at most its own, counting
/// from the end: a stable insertion.
pub open spec fn insert_ranked(s: Seq<Match>, m: Match) -> Seq<Match>
    decreases s.len(),
{
    if s.len() == 0 {
        seq![m]
    } else if s.last().distance <= m.distance {
        s.push(m)
    } else {
        insert_ranked(s.drop_last(), m).push(s.last())
    }
}

/// The matches of `s` ordered by ascending distance; matches at equal
/// distance keep their order in `s`.
pub open spec fn ranked(s: Seq<Match>) -> Seq<Match>
    decreases s.len(),
{
    if s.len() == 0 {
        Seq::empty()
    } else {
        insert_ranked(ranked(s.drop_last()), s.last())
    }
}

/// The first `k` matches of `s` in ranked order, or all of them if there are
/// fewer.
pub open spec fn top_k(s: Seq<Match>, k: nat) -> Seq<Match> {
    if s.len() <= k {
        ranked(s)
    } else {
        ranked(s).take(k as int)
    }
}

/// The contents of a list of per-shard result vectors, as sequences.
pub open spec fn lists_view(v: Seq<Vec<Match>>) -> Seq<Seq<Match>> {
    v.map_values(|l: Vec<Match>| l@)
}

proof fn lemma_insert_ranked_at(s: Seq<Match>, m: Match, p: int)
    requires
        0 <= p <= s.len(),
        forall|j: int| p <= j < s.len() ==> s[j].distance > m.distance,
        p == 0 || s[p - 1].distance <= m.distance,
    ensures
        insert_ranked(s, m) == s.insert(p, m),
    decreases s.len(),
{
    if s.len() == 0 {
        assert(s.insert(p, m) =~= seq![m]);
    } else if s.last().distance <= m.distance {
        assert(s.insert(p, m) =~= s.push(m));
    } else {
        lemma_insert_ranked_at(s.drop_last(), m, p);
        assert(s.drop_last().insert(p, m).push(s.last()) =~= s.insert(p, m));
    }
}

proof fn lemma_insert_ranked_props(s: Seq<Match>, m: Match)
    ensures
        insert_ranked(s, m).to_multiset() == s.to_multiset().insert(m),
        insert_ranked(s, m).len() == s.len() + 1,
        is_ascending(s) ==> is_ascending(insert_ranked(s, m)),
    decreases s.len(),
{
    broadcast use vstd::seq_lib::group_to_multiset_ensures;

    if s.len() == 0 {
        assert(seq![m] =~= Seq::<Match>::empty().push(m));
    } else if s.last().distance <= m.distance {
    } else {
        let t = s.drop_last();
        lemma_insert_ranked_props(t, m);
        assert(t.push(s.last()) =~= s);
        let r = insert_ranked(t, m);
        if is_ascending(s) {
            assert forall|i: int| 0 <= i < r.len() implies r[i].distance <= s.last().distance by {
                assert(r.contains(r[i]));
                assert(r.to_multiset().count(r[i]) > 0);
                if r[i] != m {
                    assert(t.to_multiset().count(r[i]) > 0);
                    let j = choose|j: int| 0 <= j < t.len() && t[j] == r[i];
                    assert(s[j] == t[j]);
                }
            }
        }
    }
}

/// Ranking keeps exactly the given matches and orders them by distance.
pub proof fn lemma_ranked(s: Seq<Match>)
    ensures
        ranked(s).len() == s.len(),
        ranked(s).to_multiset() == s.to_multiset(),
        is_ascending(ranked(s)),
    decreases s.len(),
{
    broadcast use vstd::seq_lib::group_to_multiset_ensures;

    if s.len() > 0 {
        lemma_ranked(s.drop_last());
        lemma_insert_ranked_props(ranked(s.drop_last()), s.last());
        assert(s.drop_last().push(s.last()) =~= s);
    }
}

/// The `k` best matches are ranked, number `min(k, |s|)`, and each of them
/// is one of the given matches.
pub proof fn lemma_top_k(s: Seq<Match>, k: nat)
    ensures
        is_ranked_result(top_k(s, k), k),
        top_k(s, k).len() == if s.len() <= k { s.len() } else { k },
        forall|i: int| 0 <= i < top_k(s, k).len() ==> s.contains(#[trigger] top_k(s, k)[i]),
{
    broadcast use vstd::seq_lib::group_to_multiset_ensures;

    lemma_ranked(s);
    let r = ranked(s);
    assert forall|i: int| 0 <= i < top_k(s, k).len() implies s.contains(#[trigger] top_k(s, k)[i]) by {
        assert(top_k(s, k)[i] == r[i]);
        assert(r.contains(r[i]));
        assert(r.to_multiset().count(r[i]) > 0);
    }
}

/// Stable merge of two sequences by distance, taken from the back: on equal
/// distance the matches of `x` come first.
pub open spec fn merge_ranked(x: Seq<Match>, y: Seq<Match>) -> Seq<Match>
    decreases x.len() + y.len(),
{
    if y.len() == 0 {
        x
    } else if x.len() == 0 {
        y
    } else if x.last().distance > y.last().distance {
        merge_ranked(x.drop_last(), y).push(x.last())
    } else {
        merge_ranked(x, y.drop_last()).push(y.last())
    }
}

proof fn lemma_merge_single(x: Seq<Match>, m: Match)
    ensures
        merge_ranked(x, seq![m]) == insert_ranked(x, m),
    decreases x.len(),
{
    let y = seq![m];
    assert(y.drop_last() =~= Seq::<Match>::empty());
    assert(y.last() == m);
    if x.len() == 0 {
        assert(merge_ranked(x, y) == y);
    } else if x.last().distance > m.distance {
        lemma_merge_single(x.drop_last(), m);
        assert(merge_ranked(x, y) == merge_ranked(x.drop_last(), y).push(x.last()));
    } else {
        assert(merge_ranked(x, y) == merge_ranked(x, y.drop_last()).push(m));
        assert(merge_ranked(x, y.drop_last()) == x);
    }
}

proof fn lemma_insert_into_merge(x: Seq<Match>, y: Seq<Match>, m: Match)
    ensures
        insert_ranked(merge_ranked(x, y), m) == merge_ranked(x, insert_ranked(y, m)),
    decreases x.len() + y.len(),
{
    let yi = insert_ranked(y, m);
    if y.len() == 0 {
        assert(yi == seq![m]);
        assert(merge_ranked(x, y) == x);
        lemma_merge_single(x, m);
    } else if x.len() == 0 {
        assert(merge_ranked(x, y) == y);
        assert(yi.len() > 0);
        assert(merge_ranked(x, yi) == yi);
    } else {
        let xl = x.last();
        let yl = y.last();
        if yl.distance <= m.distance {
            assert(yi == y.push(m));
            assert(yi.last() == m);
            assert(yi.drop_last() =~= y);
        } else {
            assert(yi == insert_ranked(y.drop_last(), m).push(yl));
            assert(yi.last() == yl);
            assert(yi.drop_last() =~= insert_ranked(y.drop_last(), m));
        }
        if xl.distance > yl.distance {
            let mm = merge_ranked(x, y);
            assert(mm == merge_ranked(x.drop_last(), y).push(xl));
            assert(mm.drop_last() =~= merge_ranked(x.drop_last(), y));
            assert(mm.last() == xl);
            if xl.distance > m.distance {
                lemma_insert_into_merge(x.drop_last(), y, m);
                assert(insert_ranked(mm, m) == insert_ranked(merge_ranked(x.drop_last(), y), m).push(xl));
                assert(merge_ranked(x, yi) == merge_ranked(x.drop_last(), yi).push(xl));
            } else {
                assert(insert_ranked(mm, m) == mm.push(m));
                assert(merge_ranked(x, yi) == merge_ranked(x, yi.drop_last()).push(m));
            }
        } else {
            let mm = merge_ranked(x, y);
            assert(mm == merge_ranked(x, y.drop_last()).push(yl));
            assert(mm.drop_last() =~= merge_ranked(x, y.drop_last()));
            assert(mm.last() == yl);
            if yl.distance > m.distance {
                lemma_insert_into_merge(x, y.drop_last(), m);
                assert(insert_ranked(mm, m) == insert_ranked(merge_ranked(x, y.drop_last()), m).push(
                    yl,
                ));
                assert(merge_ranked(x, yi) == merge_ranked(x, yi.drop_last()).push(yl));
            } else {
                assert(insert_ranked(mm, m) == mm.push(m));
                assert(merge_ranked(x, yi) == merge_ranked(x, yi.drop_last()).push(m));
            }
        }
    }
}

proof fn lemma_ranked_append(a: Seq<Match>, b: Seq<Match>)
    ensures
        ranked(a + b) == merge_ranked(ranked(a), ranked(b)),
    decreases b.len(),
{
    if b.len() == 0 {
        assert(a + b =~= a);
    } else {
        lemma_ranked_append(a, b.drop_last());
        assert((a + b).drop_last() =~= a + b.drop_last());
        assert((a + b).last() == b.last());
        lemma_insert_into_merge(ranked(a), ranked(b.drop_last()), b.last());
    }
}

proof fn lemma_ranked_of_ascending(s: Seq<Match>)
    requires
        is_ascending(s),
    ensures
        ranked(s) == s,
    decreases s.len(),
{
    if s.len() > 0 {
        lemma_ranked_of_ascending(s.drop_last());
        if s.len() == 1 {
            assert(s =~= seq![s.last()]);
        } else {
            assert(s.drop_last().push(s.last()) =~= s);
        }
    }
}

/// The sequences of a list, each ranked on its own.
pub open spec fn each_ranked(lists: Seq<Seq<Match>>) -> Seq<Seq<Match>> {
    lists.map_values(|l: Seq<Match>| ranked(l))
}

/// Ground truth from complete per-shard samples is exact: ranking the
/// concatenation of every shard's complete ranked contents, and keeping the
/// first `k`, gives the same matches in the same order as ranking the
/// contents of all shards together.
pub proof fn lemma_full_sample_merge_is_brute_force(shards: Seq<Seq<Match>>, k: nat)
    ensures
        ranked(each_ranked(shards).flatten()) == ranked(shards.flatten()),
        top_k(each_ranked(shards).flatten(), k) == top_k(shards.flatten(), k),
    decreases shards.len(),
{
    let e = each_ranked(shards);
    if shards.len() == 0 {
    } else {
        let init = shards.drop_last();
        let last = shards.last();
        lemma_full_sample_merge_is_brute_force(init, k);
        assert(init.push(last) =~= shards);
        assert(each_ranked(init).push(ranked(last)) =~= e);
        init.lemma_flatten_push(last);
        each_ranked(init).lemma_flatten_push(ranked(last));
        lemma_ranked_append(each_ranked(init).flatten(), ranked(last));
        lemma_ranked_append(init.flatten(), last);
        lemma_ranked(last);
        lemma_ranked_of_ascending(ranked(last));
    }
    lemma_ranked(e.flatten());
    lemma_ranked(shards.flatten());
}

/// How many exact matches to take from a shard for the ground truth: the
/// configured sample size, or the whole shard if it is smaller.
pub fn per_shard_sample(sample_size: usize, shard_size: usize) -> (r: usize)
    ensures
        r == if sample_size <= shard_size { sample_size } else { shard_size },
{
    if sample_size <= shard_size {
        sample_size
    } else {
        shard_size
    }
}

/// Inserts `m` into a vector at the place that `insert_ranked` gives it.
fn insert_ranked_into(out: &mut Vec<Match>, m: Match)
    ensures
        final(out)@ == insert_ranked(old(out)@, m),
{
    let mut p: usize = out.len();
    while p > 0 && out[p - 1].distance > m.distance
        invariant
            p <= out.len(),
            forall|j: int| p <= j < out.len() ==> out@[j].distance > m.distance,
        decreases p,
    {
        p = p - 1;
    }
    proof {
        lemma_insert_ranked_at(out@, m, p as int);
    }
    out.insert(p, m);
}

/// Merges the matches of every list, ranks them by ascending distance (ties
/// keep their input order) and keeps the first `k`.
pub fn merge_top_k(lists: &Vec<Vec<Match>>, k: usize) -> (r: Vec<Match>)
    ensures
        r@ == top_k(lists_view(lists@).flatten(), k as nat),
        is_ranked_result(r@, k as nat),
        r@.len() == if lists_view(lists@).flatten().len() <= k {
            lists_view(lists@).flatten().len()
        } else {
            k as nat
        },
        forall|i: int| 0 <= i < r@.len() ==> lists_view(lists@).flatten().contains(#[trigger] r@[i]),
{
    let ghost views = lists_view(lists@);
    let mut out: Vec<Match> = Vec::new();
    let mut s: usize = 0;
    while s < lists.len()
        invariant
            s <= lists.len(),
            views == lists_view(lists@),
            out@ == ranked(views.take(s as int).flatten()),
        decreases lists.len() - s,
    {
        let list = &lists[s];
        let ghost before = views.take(s as int).flatten();
        let mut i: usize = 0;
        while i < list.len()
            invariant
                i <= list.len(),
                out@ == ranked(before + list@.take(i as int)),
            decreases list.len() - i,
        {
            let m = list[i];
            proof {
                assert((before + list@.take(i as int)).push(m) =~= before + list@.take(i + 1));
                assert((before + list@.take(i + 1)).drop_last() =~= before + list@.take(i as int));
            }
            insert_ranked_into(&mut out, m);
            i = i + 1;
        }
        proof {
            assert(list@.take(i as int) =~= list@);
            assert(views[s as int] == list@);
            assert(views.take(s + 1) =~= views.take(s as int).push(views[s as int]));
            views.take(s as int).lemma_flatten_push(views[s as int]);
        }
        s = s + 1;
    }
    proof {
        assert(views.take(s as int) =~= views);
        lemma_ranked(views.flatten());
        lemma_top_k(views.flatten(), k as nat);
    }
    out.truncate(k);
    out
}

} // verus!
