//! A stable sort of object indices by integer keys.
//!
//! The hierarchy orders the objects of a span by the rank of a bounding-box
//! coordinate. Equal keys keep their relative order.
use vstd::prelude::*;

verus! {

/// The keys of the sequence's elements never decrease.
pub open spec fn sorted_by(s: Seq<usize>, keys: Seq<i64>) -> bool {
    forall|i: int, j: int| 0 <= i <= j < s.len() ==> keys[s[i] as int] <= keys[s[j] as int]
}

/// Every element of the sequence has a key.
pub open spec fn keyed(s: Seq<usize>, keys: Seq<i64>) -> bool {
    forall|i: int| 0 <= i < s.len() ==> (#[trigger] s[i]) < keys.len()
}

/// The elements whose key is `c`, in the order in which they stand.
pub open spec fn with_key(s: Seq<usize>, keys: Seq<i64>, c: i64) -> Seq<usize>
    decreases s.len(),
{
    if s.len() == 0 {
        s
    } else if keys[s.last() as int] == c {
        with_key(s.drop_last(), keys, c).push(s.last())
    } else {
        with_key(s.drop_last(), keys, c)
    }
}

/// `r` is `s` sorted by key, equal keys in their old order: `r` is sorted, and
/// for every key the elements that carry it are the same in both, in the same
/// order.
pub open spec fn is_stable_sort(s: Seq<usize>, r: Seq<usize>, keys: Seq<i64>) -> bool {
    &&& r.len() == s.len()
    &&& sorted_by(r, keys)
    &&& forall|c: i64| #[trigger] with_key(r, keys, c) == with_key(s, keys, c)
}

/// An element stands in a sequence as often as in its key class.
proof fn lemma_count_in_class(s: Seq<usize>, keys: Seq<i64>, x: usize)
    ensures
        s.to_multiset().count(x) == with_key(s, keys, keys[x as int]).to_multiset().count(x),
    decreases s.len(),
{
    broadcast use {vstd::seq_lib::to_multiset_build, vstd::multiset::group_multiset_axioms};

    let c = keys[x as int];
    if s.len() == 0 {
        assert(with_key(s, keys, c) =~= s);
    } else {
        let rest = s.drop_last();
        lemma_count_in_class(rest, keys, x);
        assert(s =~= rest.push(s.last()));
        assert(s.to_multiset() == rest.to_multiset().insert(s.last()));
        if keys[s.last() as int] == c {
            assert(with_key(s, keys, c).to_multiset() == with_key(
                rest,
                keys,
                c,
            ).to_multiset().insert(s.last()));
        }
    }
}

/// A stable sort keeps the elements: it is a permutation, so what has no
/// duplicates keeps none, and what holds an element still holds it.
pub proof fn lemma_stable_sort_permutes(s: Seq<usize>, r: Seq<usize>, keys: Seq<i64>)
    requires
        is_stable_sort(s, r, keys),
    ensures
        r.to_multiset() == s.to_multiset(),
        s.no_duplicates() ==> r.no_duplicates(),
        forall|x: usize| s.contains(x) <==> r.contains(x),
{
    assert forall|x: usize| r.to_multiset().count(x) == s.to_multiset().count(x) by {
        lemma_count_in_class(s, keys, x);
        lemma_count_in_class(r, keys, x);
        assert(with_key(r, keys, keys[x as int]) == with_key(s, keys, keys[x as int]));
    }
    assert(r.to_multiset() =~= s.to_multiset());
    if s.no_duplicates() {
        s.lemma_multiset_has_no_duplicates();
        r.lemma_multiset_has_no_duplicates_conv();
    }
    assert forall|x: usize| s.contains(x) <==> r.contains(x) by {
        vstd::seq_lib::to_multiset_contains(s, x);
        vstd::seq_lib::to_multiset_contains(r, x);
    }
}

/// Dropping the last element of a sorted sequence drops the last element of
/// its key class and leaves the other classes alone.
proof fn lemma_with_key_drop_last(s: Seq<usize>, keys: Seq<i64>, c: i64)
    requires
        s.len() > 0,
    ensures
        with_key(s.drop_last(), keys, c) == if keys[s.last() as int] == c {
            with_key(s, keys, c).drop_last()
        } else {
            with_key(s, keys, c)
        },
{
    if keys[s.last() as int] == c {
        assert(with_key(s.drop_last(), keys, c).push(s.last()).drop_last() =~= with_key(
            s.drop_last(),
            keys,
            c,
        ));
    }
}

/// No class is longer than the sequence, and an element with the key is in its class.
proof fn lemma_with_key_len(s: Seq<usize>, keys: Seq<i64>, c: i64)
    ensures
        with_key(s, keys, c).len() <= s.len(),
        (exists|i: int| 0 <= i < s.len() && keys[s[i] as int] == c) ==> with_key(s, keys, c).len()
            > 0,
        forall|k: int|
            0 <= k < with_key(s, keys, c).len() ==> keys[(#[trigger] with_key(s, keys, c)[k]) as int]
                == c,
    decreases s.len(),
{
    if s.len() > 0 {
        lemma_with_key_len(s.drop_last(), keys, c);
        if keys[s.last() as int] != c {
            if exists|i: int| 0 <= i < s.len() && keys[s[i] as int] == c {
                let i = choose|i: int| 0 <= i < s.len() && keys[s[i] as int] == c;
                assert(s.drop_last()[i] == s[i]);
            }
        }
    }
}

/// The largest key of a sorted sequence is that of its last element, and the
/// last element is the last of its class.
proof fn lemma_sorted_last(s: Seq<usize>, keys: Seq<i64>)
    requires
        s.len() > 0,
        sorted_by(s, keys),
    ensures
        with_key(s, keys, keys[s.last() as int]).len() > 0,
        with_key(s, keys, keys[s.last() as int]).last() == s.last(),
{
}

/// Two stable sorts of one sequence are the same sequence.
pub proof fn lemma_stable_sort_unique(s: Seq<usize>, a: Seq<usize>, b: Seq<usize>, keys: Seq<i64>)
    requires
        is_stable_sort(s, a, keys),
        is_stable_sort(s, b, keys),
    ensures
        a == b,
    decreases a.len(),
{
    if a.len() == 0 {
        assert(a =~= b);
    } else {
        // Both end in the last element of the class of the largest key.
        let ca = keys[a.last() as int];
        let cb = keys[b.last() as int];
        lemma_sorted_last(a, keys);
        lemma_sorted_last(b, keys);
        lemma_with_key_len(a, keys, cb);
        lemma_with_key_len(b, keys, ca);
        assert(with_key(a, keys, ca) == with_key(b, keys, ca));
        assert(with_key(a, keys, cb) == with_key(b, keys, cb));
        // An element with key cb stands in a, so cb <= ca; and the other way round.
        let ka = with_key(a, keys, cb);
        assert(ka.len() > 0);
        assert(keys[ka[0] as int] == cb);
        lemma_with_key_member(a, keys, cb, 0);
        let kb = with_key(b, keys, ca);
        assert(kb.len() > 0);
        assert(keys[kb[0] as int] == ca);
        lemma_with_key_member(b, keys, ca, 0);
        assert(ca == cb);
        assert(a.last() == b.last());
        let a1 = a.drop_last();
        let b1 = b.drop_last();
        assert(sorted_by(a1, keys)) by {
            assert forall|i: int, j: int| 0 <= i <= j < a1.len() implies keys[a1[i] as int]
                <= keys[a1[j] as int] by {
                assert(a1[i] == a[i] && a1[j] == a[j]);
            }
        }
        assert(sorted_by(b1, keys)) by {
            assert forall|i: int, j: int| 0 <= i <= j < b1.len() implies keys[b1[i] as int]
                <= keys[b1[j] as int] by {
                assert(b1[i] == b[i] && b1[j] == b[j]);
            }
        }
        assert forall|c: i64| #[trigger] with_key(a1, keys, c) == with_key(b1, keys, c) by {
            lemma_with_key_drop_last(a, keys, c);
            lemma_with_key_drop_last(b, keys, c);
            assert(with_key(a, keys, c) == with_key(b, keys, c));
        }
        assert(is_stable_sort(a1, a1, keys));
        assert(is_stable_sort(a1, b1, keys));
        lemma_stable_sort_unique(a1, a1, b1, keys);
        assert(a =~= a1.push(a.last()));
        assert(b =~= b1.push(b.last()));
    }
}

/// Every member of a key class stands in the sequence.
proof fn lemma_with_key_member(s: Seq<usize>, keys: Seq<i64>, c: i64, k: int)
    requires
        0 <= k < with_key(s, keys, c).len(),
    ensures
        exists|i: int| 0 <= i < s.len() && s[i] == with_key(s, keys, c)[k],
    decreases s.len(),
{
    if s.len() > 0 {
        let rest = with_key(s.drop_last(), keys, c);
        if k < rest.len() {
            lemma_with_key_member(s.drop_last(), keys, c, k);
            let i = choose|i: int| 0 <= i < s.drop_last().len() && s.drop_last()[i] == rest[k];
            assert(s[i] == with_key(s, keys, c)[k]);
        } else {
            assert(s[s.len() - 1] == with_key(s, keys, c)[k]);
        }
    }
}

/// The key classes of a sequence put together from two are the classes of
/// the two, put together.
proof fn lemma_with_key_concat(a: Seq<usize>, b: Seq<usize>, keys: Seq<i64>, c: i64)
    ensures
        with_key(a + b, keys, c) == with_key(a, keys, c) + with_key(b, keys, c),
    decreases b.len(),
{
    if b.len() == 0 {
        assert(a + b =~= a);
        assert(with_key(a, keys, c) + with_key(b, keys, c) =~= with_key(a, keys, c));
    } else {
        lemma_with_key_concat(a, b.drop_last(), keys, c);
        assert((a + b).drop_last() =~= a + b.drop_last());
        assert((a + b).last() == b.last());
        if keys[b.last() as int] == c {
            assert(with_key(a, keys, c) + with_key(b.drop_last(), keys, c).push(b.last()) =~= (
            with_key(a, keys, c) + with_key(b.drop_last(), keys, c)).push(b.last()));
        }
    }
}

/// A sequence without an element of a key has an empty class for it.
proof fn lemma_with_key_none(s: Seq<usize>, keys: Seq<i64>, c: i64)
    requires
        forall|i: int| 0 <= i < s.len() ==> keys[(#[trigger] s[i]) as int] != c,
    ensures
        with_key(s, keys, c) == Seq::<usize>::empty(),
    decreases s.len(),
{
    if s.len() > 0 {
        assert forall|i: int| 0 <= i < s.drop_last().len() implies keys[(#[trigger] s.drop_last()[i]) as int]
            != c by {
            assert(s.drop_last()[i] == s[i]);
        }
        lemma_with_key_none(s.drop_last(), keys, c);
        assert(keys[s[s.len() - 1] as int] != c);
    } else {
        assert(s =~= Seq::<usize>::empty());
    }
}

/// Two stable sorts side by side, merged with the left side first among
/// equal keys, are the stable sort of the two sides put together.
proof fn lemma_merged_is_stable_sort(
    a: Seq<usize>,
    b: Seq<usize>,
    sa: Seq<usize>,
    sb: Seq<usize>,
    merged: Seq<usize>,
    keys: Seq<i64>,
)
    requires
        is_stable_sort(a, sa, keys),
        is_stable_sort(b, sb, keys),
        merged.len() == sa.len() + sb.len(),
        sorted_by(merged, keys),
        forall|c: i64| #[trigger] with_key(merged, keys, c) == with_key(sa, keys, c) + with_key(sb, keys, c),
    ensures
        is_stable_sort(a + b, merged, keys),
{
    assert forall|c: i64| #[trigger] with_key(merged, keys, c) == with_key(a + b, keys, c) by {
        lemma_with_key_concat(a, b, keys, c);
        assert(with_key(sa, keys, c) == with_key(a, keys, c));
        assert(with_key(sb, keys, c) == with_key(b, keys, c));
    }
}

/// Merges the sorted parts `order[lo..mid]` and `order[mid..hi]` into one
/// sorted part, an element of the first part going before one of the second
/// with the same key.
fn merge(order: &mut Vec<usize>, lo: usize, mid: usize, hi: usize, keys: &Vec<i64>)
    requires
        lo <= mid <= hi <= old(order).len(),
        keyed(old(order)@.subrange(lo as int, hi as int), keys@),
        sorted_by(old(order)@.subrange(lo as int, mid as int), keys@),
        sorted_by(old(order)@.subrange(mid as int, hi as int), keys@),
    ensures
        final(order).len() == old(order).len(),
        forall|k: int| 0 <= k < lo || hi <= k < old(order).len() ==> final(order)[k] == old(order)[k],
        sorted_by(final(order)@.subrange(lo as int, hi as int), keys@),
        forall|c: i64| #[trigger]
            with_key(final(order)@.subrange(lo as int, hi as int), keys@, c) == with_key(
                old(order)@.subrange(lo as int, mid as int),
                keys@,
                c,
            ) + with_key(old(order)@.subrange(mid as int, hi as int), keys@, c),
{
    let ghost before = order@;
    let ghost a = before.subrange(lo as int, mid as int);
    let ghost b = before.subrange(mid as int, hi as int);
    let mut out: Vec<usize> = Vec::new();
    let mut i: usize = lo;
    let mut j: usize = mid;
    proof {
        assert forall|k: int| 0 <= k < a.len() implies (#[trigger] a[k]) < keys.len() by {
            assert(before.subrange(lo as int, hi as int)[k] == a[k]);
        }
        assert forall|k: int| 0 <= k < b.len() implies (#[trigger] b[k]) < keys.len() by {
            assert(before.subrange(lo as int, hi as int)[k + (mid - lo)] == b[k]);
        }
        assert forall|c: i64| #[trigger]
            with_key(out@, keys@, c) == with_key(a.take(0), keys@, c) + with_key(
                b.take(0),
                keys@,
                c,
            ) by {
            assert(a.take(0) =~= Seq::<usize>::empty());
            assert(b.take(0) =~= Seq::<usize>::empty());
            assert(out@ =~= Seq::<usize>::empty());
        }
    }
    while i < mid || j < hi
        invariant
            lo <= i <= mid <= j <= hi <= order.len(),
            order@ == before,
            a == before.subrange(lo as int, mid as int),
            b == before.subrange(mid as int, hi as int),
            keyed(a, keys@),
            keyed(b, keys@),
            sorted_by(a, keys@),
            sorted_by(b, keys@),
            out.len() == (i - lo) + (j - mid),
            sorted_by(out@, keys@),
            keyed(out@, keys@),
            forall|k: int|
                0 <= k < out.len() && i < mid ==> keys[(#[trigger] out[k]) as int] <= keys[a[i - lo] as int],
            forall|k: int|
                0 <= k < out.len() && j < hi ==> keys[(#[trigger] out[k]) as int] <= keys[b[j - mid] as int],
            forall|k: int|
                0 <= k < j - mid && i < mid ==> keys[(#[trigger] b[k]) as int] < keys[a[i - lo] as int],
            forall|c: i64| #[trigger]
                with_key(out@, keys@, c) == with_key(a.take(i - lo), keys@, c) + with_key(
                    b.take(j - mid),
                    keys@,
                    c,
                ),
        decreases (mid - i) + (hi - j),
    {
        let ghost prev = out@;
        let take_left: bool = if i < mid && j < hi {
            assert(order[i as int] == a[i - lo]);
            assert(order[j as int] == b[j - mid]);
            keys[order[i]] <= keys[order[j]]
        } else {
            i < mid
        };
        if take_left {
            let x: usize = order[i];
            assert(x == a[i - lo]);
            out.push(x);
            proof {
                assert(out@.drop_last() =~= prev);
                assert(a.take(i + 1 - lo).drop_last() =~= a.take(i - lo));
                assert(a.take(i + 1 - lo).last() == x);
                let cx = keys@[x as int];
                assert forall|k: int| 0 <= k < b.take(j - mid).len() implies keys@[(
                #[trigger] b.take(j - mid)[k]) as int] != cx by {
                    assert(b.take(j - mid)[k] == b[k]);
                }
                lemma_with_key_none(b.take(j - mid), keys@, cx);
                assert forall|c: i64| #[trigger]
                    with_key(out@, keys@, c) == with_key(a.take(i + 1 - lo), keys@, c) + with_key(
                        b.take(j - mid),
                        keys@,
                        c,
                    ) by {
                    assert(with_key(prev, keys@, c) == with_key(a.take(i - lo), keys@, c) + with_key(
                        b.take(j - mid),
                        keys@,
                        c,
                    ));
                    if c == cx {
                        assert(with_key(b.take(j - mid), keys@, c) =~= Seq::<usize>::empty());
                        assert(with_key(a.take(i - lo), keys@, c).push(x) + with_key(
                            b.take(j - mid),
                            keys@,
                            c,
                        ) =~= (with_key(a.take(i - lo), keys@, c) + with_key(
                            b.take(j - mid),
                            keys@,
                            c,
                        )).push(x));
                    }
                }
                assert forall|p: int, q: int| 0 <= p <= q < out.len() implies keys@[out@[p] as int]
                    <= keys@[out@[q] as int] by {
                    if q < prev.len() {
                        assert(out@[p] == prev[p] && out@[q] == prev[q]);
                    } else if p < prev.len() {
                        assert(out@[p] == prev[p]);
                    }
                }
                assert forall|k: int| 0 <= k < out.len() && i + 1 < mid implies keys[(
                #[trigger] out[k]) as int] <= keys[a[i + 1 - lo] as int] by {
                    assert(keys@[a[i - lo] as int] <= keys@[a[i + 1 - lo] as int]);
                    if k < prev.len() {
                        assert(out@[k] == prev[k]);
                    }
                }
                assert forall|k: int| 0 <= k < out.len() && j < hi implies keys[(
                #[trigger] out[k]) as int] <= keys[b[j - mid] as int] by {
                    if k < prev.len() {
                        assert(out@[k] == prev[k]);
                    }
                }
                assert forall|k: int| 0 <= k < j - mid && i + 1 < mid implies keys[(
                #[trigger] b[k]) as int] < keys[a[i + 1 - lo] as int] by {
                    assert(keys@[a[i - lo] as int] <= keys@[a[i + 1 - lo] as int]);
                }
            }
            i = i + 1;
        } else {
            let y: usize = order[j];
            assert(y == b[j - mid]);
            out.push(y);
            proof {
                assert(out@.drop_last() =~= prev);
                assert(b.take(j + 1 - mid).drop_last() =~= b.take(j - mid));
                assert(b.take(j + 1 - mid).last() == y);
                assert forall|c: i64| #[trigger]
                    with_key(out@, keys@, c) == with_key(a.take(i - lo), keys@, c) + with_key(
                        b.take(j + 1 - mid),
                        keys@,
                        c,
                    ) by {
                    assert(with_key(prev, keys@, c) == with_key(a.take(i - lo), keys@, c) + with_key(
                        b.take(j - mid),
                        keys@,
                        c,
                    ));
                    if c == keys@[y as int] {
                        assert(with_key(a.take(i - lo), keys@, c) + with_key(
                            b.take(j - mid),
                            keys@,
                            c,
                        ).push(y) =~= (with_key(a.take(i - lo), keys@, c) + with_key(
                            b.take(j - mid),
                            keys@,
                            c,
                        )).push(y));
                    }
                }
                assert forall|p: int, q: int| 0 <= p <= q < out.len() implies keys@[out@[p] as int]
                    <= keys@[out@[q] as int] by {
                    if q < prev.len() {
                        assert(out@[p] == prev[p] && out@[q] == prev[q]);
                    } else if p < prev.len() {
                        assert(out@[p] == prev[p]);
                    }
                }
                assert forall|k: int| 0 <= k < out.len() && i < mid implies keys[(
                #[trigger] out[k]) as int] <= keys[a[i - lo] as int] by {
                    if k < prev.len() {
                        assert(out@[k] == prev[k]);
                    }
                }
                assert forall|k: int| 0 <= k < out.len() && j + 1 < hi implies keys[(
                #[trigger] out[k]) as int] <= keys[b[j + 1 - mid] as int] by {
                    assert(keys@[b[j - mid] as int] <= keys@[b[j + 1 - mid] as int]);
                    if k < prev.len() {
                        assert(out@[k] == prev[k]);
                    }
                }
            }
            j = j + 1;
        }
    }
    proof {
        assert(a.take(mid - lo) =~= a);
        assert(b.take(hi - mid) =~= b);
    }
    let ghost merged = out@;
    let mut k: usize = 0;
    while k < out.len()
        invariant
            k <= out.len(),
            out@ == merged,
            out.len() == hi - lo,
            lo <= hi <= order.len(),
            order.len() == before.len(),
            forall|m: int| 0 <= m < lo || hi <= m < before.len() ==> order[m] == before[m],
            forall|m: int| 0 <= m < k ==> order[lo + m] == merged[m],
        decreases out.len() - k,
    {
        order.set(lo + k, out[k]);
        k = k + 1;
    }
    assert(order@.subrange(lo as int, hi as int) =~= merged);
}

/// Sorts `order[lo..hi]` by the keys of its elements, keeping elements with
/// equal keys in their order. The rest of `order` is left as it is.
///
/// The part is halved, each half sorted and the two merged, so the number of
/// comparisons grows as `n log n` with the length `n` of the part.
pub fn sort_by_key(order: &mut Vec<usize>, lo: usize, hi: usize, keys: &Vec<i64>)
    requires
        lo <= hi <= old(order).len(),
        keyed(old(order)@.subrange(lo as int, hi as int), keys@),
    ensures
        final(order).len() == old(order).len(),
        forall|k: int| 0 <= k < lo || hi <= k < old(order).len() ==> final(order)[k] == old(order)[k],
        is_stable_sort(
            old(order)@.subrange(lo as int, hi as int),
            final(order)@.subrange(lo as int, hi as int),
            keys@,
        ),
    decreases hi - lo,
{
    let ghost before = order@;
    let ghost span = before.subrange(lo as int, hi as int);
    if hi - lo < 2 {
        return ;
    }
    let mid: usize = lo + (hi - lo) / 2;
    let ghost a = before.subrange(lo as int, mid as int);
    let ghost b = before.subrange(mid as int, hi as int);
    proof {
        assert(span =~= a + b);
        assert forall|k: int| 0 <= k < a.len() implies (#[trigger] a[k]) < keys.len() by {
            assert(span[k] == a[k]);
        }
        assert forall|k: int| 0 <= k < b.len() implies (#[trigger] b[k]) < keys.len() by {
            assert(span[k + (mid - lo)] == b[k]);
        }
    }
    sort_by_key(order, lo, mid, keys);
    let ghost half = order@;
    let ghost sa = half.subrange(lo as int, mid as int);
    proof {
        assert(half.subrange(mid as int, hi as int) =~= b);
    }
    sort_by_key(order, mid, hi, keys);
    let ghost both = order@;
    let ghost sb = both.subrange(mid as int, hi as int);
    proof {
        assert(both.subrange(lo as int, mid as int) =~= sa);
        lemma_stable_sort_permutes(a, sa, keys@);
        lemma_stable_sort_permutes(b, sb, keys@);
        assert forall|k: int| 0 <= k < both.subrange(lo as int, hi as int).len() implies (
        #[trigger] both.subrange(lo as int, hi as int)[k]) < keys.len() by {
            let x = both.subrange(lo as int, hi as int)[k];
            if k < mid - lo {
                assert(sa[k] == x);
                assert(sa.contains(x));
                assert(a.contains(x));
                let m = choose|m: int| 0 <= m < a.len() && a[m] == x;
            } else {
                assert(sb[k - (mid - lo)] == x);
                assert(sb.contains(x));
                assert(b.contains(x));
                let m = choose|m: int| 0 <= m < b.len() && b[m] == x;
            }
        }
    }
    merge(order, lo, mid, hi, keys);
    proof {
        let merged = order@.subrange(lo as int, hi as int);
        lemma_merged_is_stable_sort(a, b, sa, sb, merged, keys@);
    }
}

} // verus!
