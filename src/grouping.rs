//! The default order as two stable passes: by rank, then starred first.
use crate::latest::{group_of, insert_pos, is_sorted_by, key_fn, lemma_insert_pos, lemma_sorted_by_sorted, sorted_by, AssetView, SortKey};
use crate::order::{lemma_lex_le_transitive, lex_lt};
use vstd::prelude::*;

verus! {

/// Orders assets by starred-ness alone: starred ones first.
pub open spec fn group_key(marks: Set<Seq<char>>) -> spec_fn(AssetView) -> Seq<int> {
    |a: AssetView| seq![group_of(marks, a)]
}

/// The assets of `s` in group `g`, in their order in `s`.
pub open spec fn in_group(s: Seq<AssetView>, marks: Set<Seq<char>>, g: int) -> Seq<AssetView>
    decreases s.len(),
{
    if s.len() == 0 {
        s
    } else {
        let d = in_group(s.drop_last(), marks, g);
        if group_of(marks, s.last()) == g {
            d.push(s.last())
        } else {
            d
        }
    }
}

proof fn lemma_lex_single(a: int, b: int)
    ensures
        lex_lt(seq![a], seq![b]) == (a < b),
{
    let x = seq![a];
    let y = seq![b];
    assert(x[0] == a && y[0] == b);
    if a == b {
        assert(x.drop_first() =~= Seq::<int>::empty());
        assert(y.drop_first() =~= Seq::<int>::empty());
        assert(!lex_lt(Seq::<int>::empty(), Seq::<int>::empty()));
    }
}

proof fn lemma_lex_pair(a: int, b: int, c: int, d: int)
    ensures
        lex_lt(seq![a, b], seq![c, d]) == (a < c || (a == c && b < d)),
{
    let x = seq![a, b];
    let y = seq![c, d];
    assert(x[0] == a && y[0] == c);
    if a == c {
        assert(x.drop_first() =~= seq![b]);
        assert(y.drop_first() =~= seq![d]);
        lemma_lex_single(b, d);
    }
}

/// Inserting into a concatenation: past the second part only when `x` goes
/// before all of it.
proof fn lemma_insert_pos_concat(a: Seq<AssetView>, b: Seq<AssetView>, x: AssetView, kf: spec_fn(AssetView) -> Seq<int>)
    ensures
        insert_pos(a + b, x, kf) == if insert_pos(b, x, kf) == 0 {
            insert_pos(a, x, kf)
        } else {
            a.len() + insert_pos(b, x, kf)
        },
    decreases b.len(),
{
    if b.len() == 0 {
        assert(a + b =~= a);
    } else {
        assert((a + b).drop_last() =~= a + b.drop_last());
        assert((a + b).last() == b.last());
        lemma_insert_pos_concat(a, b.drop_last(), x, kf);
    }
}

/// Before all of `b`, `x` goes to its front.
proof fn lemma_insert_pos_front(b: Seq<AssetView>, x: AssetView, kf: spec_fn(AssetView) -> Seq<int>)
    requires
        forall|j: int| 0 <= j < b.len() ==> lex_lt(kf(x), kf(#[trigger] b[j])),
    ensures
        insert_pos(b, x, kf) == 0,
    decreases b.len(),
{
    if b.len() > 0 {
        assert(lex_lt(kf(x), kf(b[b.len() - 1])));
        assert forall|j: int| 0 <= j < b.drop_last().len() implies lex_lt(kf(x), kf(#[trigger] b.drop_last()[j])) by {
            assert(b.drop_last()[j] == b[j]);
        }
        lemma_insert_pos_front(b.drop_last(), x, kf);
    }
}

/// Where all of `b` share a key prefix with `x`, two keys that agree past
/// that prefix place `x` alike.
proof fn lemma_insert_pos_same_group(b: Seq<AssetView>, x: AssetView, marks: Set<Seq<char>>)
    requires
        forall|j: int| 0 <= j < b.len() ==> group_of(marks, #[trigger] b[j]) == group_of(marks, x),
    ensures
        insert_pos(b, x, key_fn(SortKey::Marker, marks)) == insert_pos(b, x, key_fn(SortKey::Rank, marks)),
    decreases b.len(),
{
    if b.len() > 0 {
        let l = b.last();
        assert(group_of(marks, b[b.len() - 1]) == group_of(marks, x));
        lemma_lex_pair(group_of(marks, x), x.rank as int, group_of(marks, l), l.rank as int);
        lemma_lex_single(x.rank as int, l.rank as int);
        assert forall|j: int| 0 <= j < b.drop_last().len() implies group_of(marks, #[trigger] b.drop_last()[j]) == group_of(marks, x) by {
            assert(b.drop_last()[j] == b[j]);
        }
        lemma_insert_pos_same_group(b.drop_last(), x, marks);
    }
}

/// A property of every element survives taking a group.
proof fn lemma_in_group_all(s: Seq<AssetView>, marks: Set<Seq<char>>, g: int, pred: spec_fn(AssetView) -> bool)
    requires
        forall|j: int| 0 <= j < s.len() ==> pred(#[trigger] s[j]),
    ensures
        forall|j: int| 0 <= j < in_group(s, marks, g).len() ==> pred(#[trigger] in_group(s, marks, g)[j]),
    decreases s.len(),
{
    if s.len() > 0 {
        assert forall|j: int| 0 <= j < s.drop_last().len() implies pred(#[trigger] s.drop_last()[j]) by {
            assert(s.drop_last()[j] == s[j]);
        }
        lemma_in_group_all(s.drop_last(), marks, g, pred);
        assert(pred(s[s.len() - 1]));
        let d = in_group(s.drop_last(), marks, g);
        let r = in_group(s, marks, g);
        assert forall|j: int| 0 <= j < r.len() implies pred(#[trigger] r[j]) by {
            if j < d.len() {
                assert(r[j] == d[j]);
            }
        }
    }
}

/// Every element of a group is in it.
proof fn lemma_in_group_members(s: Seq<AssetView>, marks: Set<Seq<char>>, g: int)
    ensures
        forall|j: int| 0 <= j < in_group(s, marks, g).len() ==> group_of(marks, #[trigger] in_group(s, marks, g)[j]) == g,
    decreases s.len(),
{
    if s.len() > 0 {
        lemma_in_group_members(s.drop_last(), marks, g);
        let d = in_group(s.drop_last(), marks, g);
        let r = in_group(s, marks, g);
        assert forall|j: int| 0 <= j < r.len() implies group_of(marks, #[trigger] r[j]) == g by {
            if j < d.len() {
                assert(r[j] == d[j]);
            }
        }
    }
}

/// A property of every element survives the stable sort.
proof fn lemma_sorted_by_all(s: Seq<AssetView>, kf: spec_fn(AssetView) -> Seq<int>, pred: spec_fn(AssetView) -> bool)
    requires
        forall|j: int| 0 <= j < s.len() ==> pred(#[trigger] s[j]),
    ensures
        forall|j: int| 0 <= j < sorted_by(s, kf).len() ==> pred(#[trigger] sorted_by(s, kf)[j]),
    decreases s.len(),
{
    if s.len() > 0 {
        assert forall|j: int| 0 <= j < s.drop_last().len() implies pred(#[trigger] s.drop_last()[j]) by {
            assert(s.drop_last()[j] == s[j]);
        }
        lemma_sorted_by_all(s.drop_last(), kf, pred);
        let t = sorted_by(s.drop_last(), kf);
        lemma_insert_pos(t, s.last(), kf);
        let p = insert_pos(t, s.last(), kf);
        assert(pred(s[s.len() - 1]));
        assert forall|j: int| 0 <= j < t.insert(p, s.last()).len() implies pred(#[trigger] t.insert(p, s.last())[j]) by {
            if j < p {
                assert(t.insert(p, s.last())[j] == t[j]);
            } else if j > p {
                assert(t.insert(p, s.last())[j] == t[j - 1]);
            }
        }
    }
}

/// Taking a group distributes over concatenation.
proof fn lemma_in_group_concat(a: Seq<AssetView>, b: Seq<AssetView>, marks: Set<Seq<char>>, g: int)
    ensures
        in_group(a + b, marks, g) == in_group(a, marks, g) + in_group(b, marks, g),
    decreases b.len(),
{
    if b.len() == 0 {
        assert(a + b =~= a);
        assert(in_group(a, marks, g) + in_group(b, marks, g) =~= in_group(a, marks, g));
    } else {
        assert((a + b).drop_last() =~= a + b.drop_last());
        lemma_in_group_concat(a, b.drop_last(), marks, g);
        if group_of(marks, b.last()) == g {
            assert(in_group(a, marks, g) + in_group(b, marks, g) =~= (in_group(a, marks, g) + in_group(b.drop_last(), marks, g)).push(b.last()));
        }
    }
}

/// A stable sort on starred-ness alone puts the starred group, in order,
/// before the rest, in order.
proof fn lemma_group_sort_partitions(s: Seq<AssetView>, marks: Set<Seq<char>>)
    ensures
        sorted_by(s, group_key(marks)) == in_group(s, marks, 0) + in_group(s, marks, 1),
    decreases s.len(),
{
    let kg = group_key(marks);
    if s.len() == 0 {
        assert(in_group(s, marks, 0) + in_group(s, marks, 1) =~= s);
    } else {
        let d = s.drop_last();
        let x = s.last();
        lemma_group_sort_partitions(d, marks);
        let g0 = in_group(d, marks, 0);
        let g1 = in_group(d, marks, 1);
        lemma_in_group_members(d, marks, 0);
        lemma_in_group_members(d, marks, 1);
        lemma_insert_pos_concat(g0, g1, x, kg);
        if group_of(marks, x) == 0 {
            assert forall|j: int| 0 <= j < g1.len() implies lex_lt(kg(x), kg(#[trigger] g1[j])) by {
                lemma_lex_single(0, group_of(marks, g1[j]));
            }
            lemma_insert_pos_front(g1, x, kg);
            if g0.len() > 0 {
                lemma_lex_single(0, group_of(marks, g0.last()));
                assert(group_of(marks, g0[g0.len() - 1]) == 0);
            }
            assert(insert_pos(g0, x, kg) == g0.len());
            assert((g0 + g1).insert(g0.len() as int, x) =~= g0.push(x) + g1);
        } else {
            if g1.len() > 0 {
                assert(group_of(marks, g1[g1.len() - 1]) == 1);
                lemma_lex_single(1, 1);
                assert(insert_pos(g1, x, kg) == g1.len());
                assert((g0 + g1).insert((g0.len() + g1.len()) as int, x) =~= g0 + g1.push(x));
            } else {
                if g0.len() > 0 {
                    assert(group_of(marks, g0[g0.len() - 1]) == 0);
                    lemma_lex_single(1, 0);
                }
                assert(insert_pos(g0, x, kg) == g0.len());
                assert(g1.push(x) =~= seq![x]);
                assert((g0 + g1).insert(g0.len() as int, x) =~= g0 + g1.push(x));
            }
        }
    }
}

/// The default order puts the starred group, by rank, before the rest, by
/// rank.
proof fn lemma_marker_sort_by_groups(s: Seq<AssetView>, marks: Set<Seq<char>>)
    ensures
        sorted_by(s, key_fn(SortKey::Marker, marks)) == sorted_by(in_group(s, marks, 0), key_fn(SortKey::Rank, marks))
            + sorted_by(in_group(s, marks, 1), key_fn(SortKey::Rank, marks)),
    decreases s.len(),
{
    let kc = key_fn(SortKey::Marker, marks);
    let kr = key_fn(SortKey::Rank, marks);
    if s.len() == 0 {
        assert(sorted_by(in_group(s, marks, 0), kr) + sorted_by(in_group(s, marks, 1), kr) =~= s);
    } else {
        let d = s.drop_last();
        let x = s.last();
        lemma_marker_sort_by_groups(d, marks);
        let u0 = in_group(d, marks, 0);
        let u1 = in_group(d, marks, 1);
        let s0 = sorted_by(u0, kr);
        let s1 = sorted_by(u1, kr);
        lemma_in_group_members(d, marks, 0);
        lemma_in_group_members(d, marks, 1);
        lemma_sorted_by_all(u0, kr, |a: AssetView| group_of(marks, a) == 0);
        lemma_sorted_by_all(u1, kr, |a: AssetView| group_of(marks, a) == 1);
        lemma_insert_pos_concat(s0, s1, x, kc);
        if group_of(marks, x) == 0 {
            assert forall|j: int| 0 <= j < s1.len() implies lex_lt(kc(x), kc(#[trigger] s1[j])) by {
                assert(group_of(marks, s1[j]) == 1);
                lemma_lex_pair(0, x.rank as int, 1, s1[j].rank as int);
            }
            lemma_insert_pos_front(s1, x, kc);
            lemma_insert_pos_same_group(s0, x, marks);
            let p = insert_pos(s0, x, kr);
            lemma_insert_pos(s0, x, kr);
            assert(u0.push(x).drop_last() =~= u0);
            assert(in_group(s, marks, 0) == u0.push(x));
            assert(in_group(s, marks, 1) == u1);
            assert((s0 + s1).insert(p, x) =~= s0.insert(p, x) + s1);
        } else {
            lemma_insert_pos_same_group(s1, x, marks);
            let q = insert_pos(s1, x, kr);
            lemma_insert_pos(s1, x, kr);
            if q == 0 {
                if s0.len() > 0 {
                    assert(group_of(marks, s0[s0.len() - 1]) == 0);
                    lemma_lex_pair(1, x.rank as int, 0, s0.last().rank as int);
                }
                assert(insert_pos(s0, x, kc) == s0.len());
            }
            assert(u1.push(x).drop_last() =~= u1);
            assert(in_group(s, marks, 1) == u1.push(x));
            assert(in_group(s, marks, 0) == u0);
            assert((s0 + s1).insert(s0.len() + q, x) =~= s0 + s1.insert(q, x));
        }
    }
}

/// Taking a group commutes with the stable sort by rank.
proof fn lemma_group_of_rank_sort(s: Seq<AssetView>, marks: Set<Seq<char>>, g: int)
    ensures
        in_group(sorted_by(s, key_fn(SortKey::Rank, marks)), marks, g) == sorted_by(
            in_group(s, marks, g),
            key_fn(SortKey::Rank, marks),
        ),
    decreases s.len(),
{
    let kr = key_fn(SortKey::Rank, marks);
    if s.len() > 0 {
        let d = s.drop_last();
        let x = s.last();
        lemma_group_of_rank_sort(d, marks, g);
        let t = sorted_by(d, kr);
        let p = insert_pos(t, x, kr);
        lemma_insert_pos(t, x, kr);
        lemma_sorted_by_sorted(d, kr);
        let lo = t.subrange(0, p);
        let hi = t.subrange(p, t.len() as int);
        assert(t.insert(p, x) =~= lo.push(x) + hi);
        assert(t =~= lo + hi);
        lemma_in_group_concat(lo.push(x), hi, marks, g);
        lemma_in_group_concat(lo, hi, marks, g);
        assert(lo.push(x).drop_last() =~= lo);
        assert(d.push(x) =~= s);
        let a = in_group(lo, marks, g);
        let b = in_group(hi, marks, g);
        let u = sorted_by(in_group(d, marks, g), kr);
        assert(u == a + b);
        if group_of(marks, x) == g {
            assert(in_group(s, marks, g) == in_group(d, marks, g).push(x));
            assert(in_group(s, marks, g).drop_last() =~= in_group(d, marks, g));
            assert forall|j: int| 0 <= j < hi.len() implies lex_lt(kr(x), kr(#[trigger] hi[j])) by {
                assert(hi[j] == t[p + j]);
            }
            lemma_in_group_all(hi, marks, g, |e: AssetView| lex_lt(kr(x), kr(e)));
            assert forall|j: int| 0 <= j < b.len() implies lex_lt(kr(x), kr(#[trigger] b[j])) by {
                let pr = |e: AssetView| lex_lt(kr(x), kr(e));
                assert(pr(b[j]));
            }
            lemma_insert_pos_front(b, x, kr);
            lemma_insert_pos_concat(a, b, x, kr);
            assert forall|j: int| 0 <= j < lo.len() implies !lex_lt(kr(x), kr(#[trigger] lo[j])) by {
                assert(lo[j] == t[j]);
                if j < p - 1 {
                    assert(is_sorted_by(t, kr));
                    assert(!lex_lt(kr(t[p - 1]), kr(t[j])));
                    lemma_lex_le_transitive(kr(t[j]), kr(t[p - 1]), kr(x));
                }
            }
            lemma_in_group_all(lo, marks, g, |e: AssetView| !lex_lt(kr(x), kr(e)));
            if a.len() > 0 {
                let pr = |e: AssetView| !lex_lt(kr(x), kr(e));
                assert(pr(a[a.len() - 1]));
            }
            assert(insert_pos(a, x, kr) == a.len());
            assert((a + b).insert(a.len() as int, x) =~= a.push(x) + b);
        } else {
            assert(in_group(s, marks, g) == in_group(d, marks, g));
        }
    }
}

/// The default order is the order of two stable sorts: first by rank, then
/// by starred-ness, starred first.
pub proof fn lemma_marker_two_pass(s: Seq<AssetView>, marks: Set<Seq<char>>)
    ensures
        sorted_by(sorted_by(s, key_fn(SortKey::Rank, marks)), group_key(marks))
            == sorted_by(s, key_fn(SortKey::Marker, marks)),
{
    let a = sorted_by(s, key_fn(SortKey::Rank, marks));
    lemma_group_sort_partitions(a, marks);
    lemma_group_of_rank_sort(s, marks, 0);
    lemma_group_of_rank_sort(s, marks, 1);
    lemma_marker_sort_by_groups(s, marks);
}

} // verus!
