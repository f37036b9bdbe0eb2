//! Facts about filtered sequences that the engine's proofs rest on.

use vstd::prelude::*;

verus! {

/// The predicate that holds of everything but `x`.
pub open spec fn other_than(x: i32) -> spec_fn(i32) -> bool {
    |y: i32| y != x
}

/// The sequence without every occurrence of `x`.
pub open spec fn without(s: Seq<i32>, x: i32) -> Seq<i32> {
    s.filter(other_than(x))
}

/// Filtering a sequence with one more element: the element is kept at the
/// end, if the predicate holds of it.
pub proof fn lemma_filter_push<A>(s: Seq<A>, p: spec_fn(A) -> bool, x: A)
    ensures
        s.push(x).filter(p) == if p(x) {
            s.filter(p).push(x)
        } else {
            s.filter(p)
        },
{
    reveal(Seq::filter);
    assert(s.push(x).drop_last() =~= s);
}

/// Filtering a prefix that is one element longer.
pub proof fn lemma_filter_take_next<A>(s: Seq<A>, p: spec_fn(A) -> bool, i: int)
    requires
        0 <= i < s.len(),
    ensures
        s.take(i + 1).filter(p) == if p(s[i]) {
            s.take(i).filter(p).push(s[i])
        } else {
            s.take(i).filter(p)
        },
{
    assert(s.take(i + 1) =~= s.take(i).push(s[i]));
    lemma_filter_push(s.take(i), p, s[i]);
}

/// Nothing is kept of an empty sequence.
pub proof fn lemma_filter_empty<A>(s: Seq<A>, p: spec_fn(A) -> bool)
    requires
        s.len() == 0,
    ensures
        s.filter(p) == Seq::<A>::empty(),
{
    reveal(Seq::filter);
    assert(s =~= Seq::<A>::empty());
}

/// An element is in the filtered sequence exactly if it is in the sequence
/// and the predicate holds of it.
pub proof fn lemma_filter_contains<A>(s: Seq<A>, p: spec_fn(A) -> bool, x: A)
    ensures
        s.filter(p).contains(x) <==> (s.contains(x) && p(x)),
    decreases s.len(),
{
    if s.len() == 0 {
        lemma_filter_empty(s, p);
    } else {
        let front = s.drop_last();
        let last = s.last();
        assert(s =~= front.push(last));
        lemma_filter_push(front, p, last);
        lemma_filter_contains(front, p, x);
        if s.contains(x) {
            let i = choose|i: int| 0 <= i < s.len() && s[i] == x;
            if i < front.len() {
                assert(front[i] == x);
            }
        }
        if front.contains(x) {
            let i = choose|i: int| 0 <= i < front.len() && front[i] == x;
            assert(s[i] == x);
        }
        if p(last) {
            let kept = front.filter(p);
            assert(kept.push(last)[kept.len() as int] == last);
            if kept.contains(x) {
                let i = choose|i: int| 0 <= i < kept.len() && kept[i] == x;
                assert(kept.push(last)[i] == x);
            }
            if kept.push(last).contains(x) && x != last {
                let i = choose|i: int| 0 <= i < kept.push(last).len() && kept.push(last)[i] == x;
                assert(kept[i] == x);
            }
        }
        assert(s[s.len() - 1] == last);
    }
}

/// Filtering keeps a sequence free of duplicates.
pub proof fn lemma_filter_no_duplicates<A>(s: Seq<A>, p: spec_fn(A) -> bool)
    requires
        s.no_duplicates(),
    ensures
        s.filter(p).no_duplicates(),
    decreases s.len(),
{
    if s.len() == 0 {
        lemma_filter_empty(s, p);
    } else {
        let front = s.drop_last();
        let last = s.last();
        assert(s =~= front.push(last));
        lemma_filter_push(front, p, last);
        lemma_filter_no_duplicates(front, p);
        lemma_filter_contains(front, p, last);
        if front.contains(last) {
            let i = choose|i: int| 0 <= i < front.len() && front[i] == last;
            assert(s[i] == s[s.len() - 1]);
        }
    }
}

/// Two predicates that agree on the elements of a sequence keep the same
/// elements of it.
pub proof fn lemma_filter_agree<A>(s: Seq<A>, p: spec_fn(A) -> bool, q: spec_fn(A) -> bool)
    requires
        forall|i: int| 0 <= i < s.len() ==> p(#[trigger] s[i]) == q(s[i]),
    ensures
        s.filter(p) == s.filter(q),
    decreases s.len(),
{
    if s.len() == 0 {
        lemma_filter_empty(s, p);
        lemma_filter_empty(s, q);
    } else {
        let front = s.drop_last();
        let last = s.last();
        assert(s =~= front.push(last));
        assert forall|i: int| 0 <= i < front.len() implies p(#[trigger] front[i]) == q(
            front[i],
        ) by {
            assert(front[i] == s[i]);
        }
        lemma_filter_agree(front, p, q);
        lemma_filter_push(front, p, last);
        lemma_filter_push(front, q, last);
        assert(p(s[s.len() - 1]) == q(s[s.len() - 1]));
    }
}

/// Filtering twice keeps what both predicates hold of.
pub proof fn lemma_filter_twice<A>(
    s: Seq<A>,
    p: spec_fn(A) -> bool,
    q: spec_fn(A) -> bool,
    both: spec_fn(A) -> bool,
)
    requires
        forall|i: int| 0 <= i < s.len() ==> both(#[trigger] s[i]) == (p(s[i]) && q(s[i])),
    ensures
        s.filter(p).filter(q) == s.filter(both),
    decreases s.len(),
{
    if s.len() == 0 {
        lemma_filter_empty(s, p);
        lemma_filter_empty(s.filter(p), q);
        lemma_filter_empty(s, both);
    } else {
        let front = s.drop_last();
        let last = s.last();
        assert(s =~= front.push(last));
        assert forall|i: int| 0 <= i < front.len() implies both(#[trigger] front[i]) == (p(
            front[i],
        ) && q(front[i])) by {
            assert(front[i] == s[i]);
        }
        lemma_filter_twice(front, p, q, both);
        lemma_filter_push(front, p, last);
        lemma_filter_push(front, both, last);
        if p(last) {
            lemma_filter_push(front.filter(p), q, last);
        }
        assert(both(s[s.len() - 1]) == (p(s[s.len() - 1]) && q(s[s.len() - 1])));
    }
}

/// Taking one element out of a sequence without duplicates makes it shorter
/// by one.
pub proof fn lemma_without_len(s: Seq<i32>, x: i32)
    requires
        s.no_duplicates(),
        s.contains(x),
    ensures
        without(s, x).len() == s.len() - 1,
    decreases s.len(),
{
    let front = s.drop_last();
    let last = s.last();
    assert(s =~= front.push(last));
    lemma_filter_push(front, other_than(x), last);
    if last == x {
        assert forall|i: int| 0 <= i < front.len() implies other_than(x)(#[trigger] front[i]) by {
            assert(s[i] != s[s.len() - 1]);
        }
        lemma_keep_all(front, other_than(x));
    } else {
        let i = choose|i: int| 0 <= i < s.len() && s[i] == x;
        assert(front[i] == x);
        lemma_without_len(front, x);
    }
}

/// A predicate that holds of every element keeps the whole sequence.
pub proof fn lemma_keep_all<A>(s: Seq<A>, p: spec_fn(A) -> bool)
    requires
        forall|i: int| 0 <= i < s.len() ==> p(#[trigger] s[i]),
    ensures
        s.filter(p) == s,
    decreases s.len(),
{
    if s.len() == 0 {
        lemma_filter_empty(s, p);
        assert(s =~= Seq::<A>::empty());
    } else {
        let front = s.drop_last();
        let last = s.last();
        assert(s =~= front.push(last));
        assert forall|i: int| 0 <= i < front.len() implies p(#[trigger] front[i]) by {
            assert(front[i] == s[i]);
        }
        lemma_keep_all(front, p);
        lemma_filter_push(front, p, last);
        assert(p(s[s.len() - 1]));
    }
}

} // verus!
