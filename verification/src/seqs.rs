//! Facts about sequences.
use vstd::prelude::*;

verus! {

/// How a filter goes on from a sequence to one that is longer by an item.
pub(crate) proof fn lemma_filter_push<A>(s: Seq<A>, a: A, p: spec_fn(A) -> bool)
    ensures
        p(a) ==> s.push(a).filter(p) == s.filter(p).push(a),
        !p(a) ==> s.push(a).filter(p) == s.filter(p),
{
    reveal(Seq::filter);
    assert(s.push(a).drop_last() =~= s);
}

/// A sequence of one item more.
pub(crate) proof fn lemma_take_push<A>(s: Seq<A>, i: int)
    requires
        0 <= i < s.len(),
    ensures
        s.take(i + 1) == s.take(i).push(s[i]),
{
    assert(s.take(i + 1) =~= s.take(i).push(s[i]));
}

/// What a filter keeps.
pub(crate) proof fn lemma_filter_keeps<A>(s: Seq<A>, a: A, p: spec_fn(A) -> bool)
    ensures
        s.filter(p).contains(a) == (s.contains(a) && p(a)),
    decreases s.len(),
{
    reveal(Seq::filter);
    if s.len() > 0 {
        let front = s.drop_last();
        lemma_filter_keeps(front, a, p);
        assert(s =~= front.push(s.last()));
        lemma_push_contains(front, s.last(), a);
        lemma_push_contains(front.filter(p), s.last(), a);
    }
}

/// What a sequence of one item more holds.
pub(crate) proof fn lemma_push_contains<A>(s: Seq<A>, last: A, a: A)
    ensures
        s.push(last).contains(a) == (s.contains(a) || a == last),
{
    let t = s.push(last);
    if t.contains(a) {
        let i = choose|i: int| 0 <= i < t.len() && t[i] == a;
        if i < s.len() {
            assert(s[i] == a);
        }
    }
    if s.contains(a) {
        let i = choose|i: int| 0 <= i < s.len() && s[i] == a;
        assert(t[i] == a);
    }
    assert(t[s.len() as int] == last);
}

/// The empty filter.
pub(crate) proof fn lemma_filter_empty<A>(p: spec_fn(A) -> bool)
    ensures
        Seq::<A>::empty().filter(p) == Seq::<A>::empty(),
{
    reveal(Seq::filter);
}

} // verus!
