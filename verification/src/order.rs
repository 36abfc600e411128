//! Putting things in order.

use crate::text::{
    is_before, lemma_precedes_irreflexive, lemma_precedes_total,
    lemma_precedes_transitive, precedes,
};
use vstd::prelude::*;

verus! {

/// Whether rank `a` comes before rank `b`: by number, then by text.
pub open spec fn rank_before(a: (int, Seq<char>), b: (int, Seq<char>)) -> bool {
    a.0 < b.0 || (a.0 == b.0 && precedes(a.1, b.1))
}

/// Things with a place in an order.
pub trait Ranked: Sized {
    /// The place.
    spec fn rank(&self) -> (int, Seq<char>);

    /// Whether the place of this thing comes before that of `other`.
    fn ranks_before(&self, other: &Self) -> (res: bool)
        ensures
            res == rank_before(self.rank(), other.rank()),
    ;
}

impl Ranked for String {
    open spec fn rank(&self) -> (int, Seq<char>) {
        (0, self@)
    }

    fn ranks_before(&self, other: &String) -> (res: bool) {
        is_before(self.as_str(), other.as_str())
    }
}

/// Whether no thing comes before one that stands in front of it.
pub open spec fn ordered<T: Ranked>(s: Seq<T>) -> bool {
    forall|i: int, j: int|
        0 <= i < j < s.len() ==> !rank_before((#[trigger] s[j]).rank(), (#[trigger] s[i]).rank())
}

/// The things of one rank, in the order in which they stand.
pub open spec fn of_rank<T: Ranked>(s: Seq<T>, rank: (int, Seq<char>)) -> Seq<T> {
    s.filter(|t: T| t.rank() == rank)
}

/// Whether `out` is `s` put in order, things of one rank left in their order.
pub open spec fn sorted_from<T: Ranked>(out: Seq<T>, s: Seq<T>) -> bool {
    &&& ordered(out)
    &&& out.len() == s.len()
    &&& forall|rank: (int, Seq<char>)| #[trigger] of_rank(out, rank) == of_rank(s, rank)
}

proof fn lemma_rank_before(a: (int, Seq<char>), b: (int, Seq<char>), c: (int, Seq<char>))
    ensures
        !rank_before(a, a),
        rank_before(a, b) && rank_before(b, c) ==> rank_before(a, c),
        a == b || rank_before(a, b) || rank_before(b, a),
        rank_before(a, b) ==> !rank_before(b, a),
        rank_before(a, b) && !rank_before(c, b) ==> rank_before(a, c),
        !rank_before(b, a) && rank_before(b, c) ==> rank_before(a, c),
{
    lemma_precedes_irreflexive(a.1);
    lemma_precedes_irreflexive(b.1);
    lemma_precedes_total(a.1, b.1);
    lemma_precedes_total(b.1, c.1);
    if precedes(a.1, b.1) && precedes(b.1, c.1) {
        lemma_precedes_transitive(a.1, b.1, c.1);
    }
    if precedes(a.1, b.1) && precedes(b.1, a.1) {
        lemma_precedes_transitive(a.1, b.1, a.1);
    }
}

proof fn lemma_insert_keeps_ranks<T: Ranked>(s: Seq<T>, at: int, x: T)
    requires
        0 <= at <= s.len(),
        forall|i: int| at <= i < s.len() ==> (#[trigger] s[i]).rank() != x.rank(),
    ensures
        forall|rank: (int, Seq<char>)| #[trigger]
            of_rank(s.insert(at, x), rank) == of_rank(s.push(x), rank),
{
    assert forall|rank: (int, Seq<char>)| #[trigger]
        of_rank(s.insert(at, x), rank) == of_rank(s.push(x), rank) by {
        let pred = |t: T| t.rank() == rank;
        let a = s.take(at);
        let b = s.skip(at);
        let one = seq![x];
        assert(s =~= a + b);
        assert(s.insert(at, x) =~= (a + one) + b);
        assert(s.push(x) =~= (a + b) + one);
        Seq::filter_distributes_over_add(a + one, b, pred);
        Seq::filter_distributes_over_add(a, one, pred);
        Seq::filter_distributes_over_add(a + b, one, pred);
        Seq::filter_distributes_over_add(a, b, pred);
        if x.rank() == rank {
            assert forall|i: int| 0 <= i < b.len() implies !pred(#[trigger] b[i]) by {
                assert(b[i] == s[at + i]);
            }
            b.lemma_all_neg_filter_empty(pred);
            assert(b.filter(pred) =~= seq![]);
        } else {
            assert forall|i: int| 0 <= i < one.len() implies !pred(#[trigger] one[i]) by {}
            one.lemma_all_neg_filter_empty(pred);
            assert(one.filter(pred) =~= seq![]);
        }
        assert(a.filter(pred) + one.filter(pred) + b.filter(pred) =~= a.filter(pred) + b.filter(
            pred,
        ) + one.filter(pred));
    }
}

/// The place behind everything in `v` that does not come after `x`.
fn insertion_point<T: Ranked>(v: &Vec<T>, x: &T) -> (at: usize)
    requires
        ordered(v@),
    ensures
        at <= v.len(),
        forall|i: int| 0 <= i < at ==> !rank_before(x.rank(), (#[trigger] v@[i]).rank()),
        forall|i: int| at <= i < v.len() ==> rank_before(x.rank(), (#[trigger] v@[i]).rank()),
{
    let mut low: usize = 0;
    let mut high: usize = v.len();
    while low < high
        invariant
            ordered(v@),
            low <= high <= v.len(),
            forall|i: int| 0 <= i < low ==> !rank_before(x.rank(), (#[trigger] v@[i]).rank()),
            forall|i: int|
                high <= i < v.len() ==> rank_before(x.rank(), (#[trigger] v@[i]).rank()),
        decreases high - low,
    {
        let mid: usize = low + (high - low) / 2;
        if x.ranks_before(&v[mid]) {
            assert forall|i: int| mid <= i < v.len() implies rank_before(
                x.rank(),
                (#[trigger] v@[i]).rank(),
            ) by {
                lemma_rank_before(x.rank(), v@[mid as int].rank(), v@[i].rank());
            }
            high = mid;
        } else {
            assert forall|i: int| 0 <= i <= mid implies !rank_before(
                x.rank(),
                (#[trigger] v@[i]).rank(),
            ) by {
                lemma_rank_before(v@[i].rank(), v@[mid as int].rank(), x.rank());
                lemma_rank_before(x.rank(), v@[i].rank(), v@[mid as int].rank());
            }
            low = mid + 1;
        }
    }
    low
}

/// Puts things in order, those of one rank left in their order.
pub fn sort<T: Ranked>(items: Vec<T>) -> (out: Vec<T>)
    ensures
        sorted_from(out@, items@),
{
    let ghost all = items@;
    let mut out: Vec<T> = Vec::new();
    for x in it: items
        invariant
            it.seq() == all,
            out.len() == it.index(),
            ordered(out@),
            forall|rank: (int, Seq<char>)| #[trigger]
                of_rank(out@, rank) == of_rank(all.take(it.index() as int), rank),
    {
        let ghost before = out@;
        let ghost k = it.index() as int;
        let at: usize = insertion_point(&out, &x);
        proof {
            assert forall|i: int| at <= i < before.len() implies (#[trigger] before[i]).rank()
                != x.rank() by {
                lemma_rank_before(x.rank(), before[i].rank(), x.rank());
            }
            lemma_insert_keeps_ranks(before, at as int, x);
        }
        out.insert(at, x);
        proof {
            assert forall|i: int, j: int| 0 <= i < j < out@.len() implies !rank_before(
                (#[trigger] out@[j]).rank(),
                (#[trigger] out@[i]).rank(),
            ) by {
                let a = if i < at { before[i] } else if i == at { x } else { before[i - 1] };
                let b = if j < at { before[j] } else if j == at { x } else { before[j - 1] };
                assert(out@[i] == a && out@[j] == b);
                lemma_rank_before(a.rank(), b.rank(), a.rank());
            }
            assert forall|rank: (int, Seq<char>)| #[trigger]
                of_rank(out@, rank) == of_rank(all.take(k + 1), rank) by {
                let pred = |t: T| t.rank() == rank;
                assert(all.take(k + 1) =~= all.take(k) + seq![x]);
                assert(before.push(x) =~= before + seq![x]);
                Seq::filter_distributes_over_add(all.take(k), seq![x], pred);
                Seq::filter_distributes_over_add(before, seq![x], pred);
                assert(of_rank(before, rank) == of_rank(all.take(k), rank));
                assert(of_rank(before.insert(at as int, x), rank) == of_rank(
                    before.push(x),
                    rank,
                ));
            }
        }
    }
    assert(all.take(all.len() as int) =~= all);
    out
}

proof fn lemma_of_rank_last<T: Ranked>(s: Seq<T>, rank: (int, Seq<char>))
    requires
        s.len() > 0,
    ensures
        s.last().rank() == rank ==> of_rank(s, rank) == of_rank(s.drop_last(), rank).push(s.last()),
        s.last().rank() != rank ==> of_rank(s, rank) == of_rank(s.drop_last(), rank),
{
    reveal(Seq::filter);
}

proof fn lemma_of_rank_member<T: Ranked>(s: Seq<T>, rank: (int, Seq<char>)) -> (i: int)
    requires
        of_rank(s, rank).len() > 0,
    ensures
        0 <= i < s.len(),
        s[i].rank() == rank,
    decreases s.len(),
{
    reveal(Seq::filter);
    if s.last().rank() == rank {
        s.len() - 1
    } else {
        lemma_of_rank_member(s.drop_last(), rank)
    }
}

/// There is one way to put things in order and leave those of one rank in their order.
pub proof fn lemma_sorted_from_unique<T: Ranked>(a: Seq<T>, b: Seq<T>, s: Seq<T>)
    requires
        sorted_from(a, s),
        sorted_from(b, s),
    ensures
        a == b,
{
    assert forall|rank: (int, Seq<char>)| #[trigger] of_rank(a, rank) == of_rank(b, rank) by {
        assert(of_rank(a, rank) == of_rank(s, rank));
        assert(of_rank(b, rank) == of_rank(s, rank));
    }
    lemma_same_ranks_same_order(a, b);
}

proof fn lemma_same_ranks_same_order<T: Ranked>(a: Seq<T>, b: Seq<T>)
    requires
        ordered(a),
        ordered(b),
        a.len() == b.len(),
        forall|rank: (int, Seq<char>)| #[trigger] of_rank(a, rank) == of_rank(b, rank),
    ensures
        a == b,
    decreases a.len(),
{
    if a.len() == 0 {
        assert(a =~= b);
    } else {
        let r = a.last().rank();
        let q = b.last().rank();
        lemma_of_rank_last(a, r);
        lemma_of_rank_last(b, q);
        assert(of_rank(a, r) == of_rank(b, r));
        assert(of_rank(a, q) == of_rank(b, q));
        let i = lemma_of_rank_member(b, r);
        let j = lemma_of_rank_member(a, q);
        assert(!rank_before(q, r)) by {
            if i < b.len() - 1 {
                assert(!rank_before(b[b.len() - 1].rank(), b[i].rank()));
            } else {
                lemma_rank_before(q, q, q);
            }
        }
        assert(!rank_before(r, q)) by {
            if j < a.len() - 1 {
                assert(!rank_before(a[a.len() - 1].rank(), a[j].rank()));
            } else {
                lemma_rank_before(r, r, r);
            }
        }
        lemma_rank_before(r, q, r);
        assert(r == q);
        let all = of_rank(a, r);
        assert(all.last() == a.last());
        assert(all.last() == b.last());
        let c = a.drop_last();
        let d = b.drop_last();
        assert forall|rank: (int, Seq<char>)| #[trigger] of_rank(c, rank) == of_rank(d, rank) by {
            lemma_of_rank_last(a, rank);
            lemma_of_rank_last(b, rank);
            assert(of_rank(a, rank) == of_rank(b, rank));
            if rank == r {
                assert(of_rank(c, rank) =~= of_rank(a, rank).drop_last());
                assert(of_rank(d, rank) =~= of_rank(b, rank).drop_last());
            }
        }
        assert(ordered(c)) by {
            assert forall|i: int, j: int| 0 <= i < j < c.len() implies !rank_before(
                (#[trigger] c[j]).rank(),
                (#[trigger] c[i]).rank(),
            ) by {
                assert(c[i] == a[i] && c[j] == a[j]);
            }
        }
        assert(ordered(d)) by {
            assert forall|i: int, j: int| 0 <= i < j < d.len() implies !rank_before(
                (#[trigger] d[j]).rank(),
                (#[trigger] d[i]).rank(),
            ) by {
                assert(d[i] == b[i] && d[j] == b[j]);
            }
        }
        lemma_same_ranks_same_order(c, d);
        assert(a =~= c.push(a.last()));
        assert(b =~= d.push(b.last()));
    }
}

/// Of things that are ordered by a text alone, each text is there as often as things of its rank are.
proof fn lemma_rank_count<T: Ranked>(s: Seq<T>, keys: Seq<Seq<char>>, key: Seq<char>)
    requires
        keys.len() == s.len(),
        forall|i: int| 0 <= i < s.len() ==> (#[trigger] s[i]).rank() == (0int, keys[i]),
    ensures
        keys.to_multiset().count(key) == of_rank(s, (0int, key)).len(),
    decreases s.len(),
{
    broadcast use vstd::seq_lib::group_to_multiset_ensures;

    if s.len() == 0 {
        assert(of_rank(s, (0int, key)).len() == 0) by {
            reveal(Seq::filter);
        }
        assert(!keys.contains(key));
    } else {
        let front = s.drop_last();
        let rest = keys.drop_last();
        assert forall|i: int| 0 <= i < front.len() implies (#[trigger] front[i]).rank() == (
            0int,
            rest[i],
        ) by {
            assert(front[i] == s[i]);
        }
        lemma_rank_count(front, rest, key);
        lemma_of_rank_last(s, (0int, key));
        assert(s[s.len() - 1].rank() == (0int, keys[s.len() - 1]));
        assert(keys =~= rest.push(keys.last()));
        assert(keys.to_multiset() =~= rest.to_multiset().insert(keys.last()));
    }
}

/// Putting things in order by a text leaves each text there as often as it was.
pub proof fn lemma_sorted_keys<T: Ranked>(
    out: Seq<T>,
    out_keys: Seq<Seq<char>>,
    s: Seq<T>,
    keys: Seq<Seq<char>>,
)
    requires
        sorted_from(out, s),
        out_keys.len() == out.len(),
        forall|i: int| 0 <= i < out.len() ==> (#[trigger] out[i]).rank() == (0int, out_keys[i]),
        keys.len() == s.len(),
        forall|i: int| 0 <= i < s.len() ==> (#[trigger] s[i]).rank() == (0int, keys[i]),
    ensures
        out_keys.to_multiset() == keys.to_multiset(),
{
    assert forall|key: Seq<char>| #[trigger]
        out_keys.to_multiset().count(key) == keys.to_multiset().count(key) by {
        assert(of_rank(out, (0int, key)) == of_rank(s, (0int, key)));
        lemma_rank_count(out, out_keys, key);
        lemma_rank_count(s, keys, key);
    }
    assert(out_keys.to_multiset() =~= keys.to_multiset());
}

/// What is put in order is what was there: nothing is lost and nothing added.
pub proof fn lemma_sorted_members<T: Ranked>(out: Seq<T>, s: Seq<T>, x: T)
    requires
        sorted_from(out, s),
    ensures
        out.contains(x) <==> s.contains(x),
{
    let pred = |t: T| t.rank() == x.rank();
    assert(of_rank(out, x.rank()) == of_rank(s, x.rank()));
    if out.contains(x) {
        let i = choose|i: int| 0 <= i < out.len() && out[i] == x;
        out.lemma_filter_contains(pred, i);
        s.lemma_filter_contains_rev(pred, x);
    }
    if s.contains(x) {
        let i = choose|i: int| 0 <= i < s.len() && s[i] == x;
        s.lemma_filter_contains(pred, i);
        out.lemma_filter_contains_rev(pred, x);
    }
}

} // verus!
