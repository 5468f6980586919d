//! Text: what the standard string operations return, and the operations themselves.
//!
//! A text is modelled as its sequence of characters.
use vstd::prelude::*;

verus! {

/// The lower-case form that `str::to_lowercase` gives a text.
pub uninterp spec fn lowercase(text: Seq<char>) -> Seq<char>;

/// The upper-case form that `str::to_uppercase` gives a text.
pub uninterp spec fn uppercase(text: Seq<char>) -> Seq<char>;

/// A character has the Unicode property `White_Space`.
pub open spec fn whitespace(c: char) -> bool {
    let n = c as int;
    ||| 0x09 <= n <= 0x0d
    ||| n == 0x20
    ||| n == 0x85
    ||| n == 0xa0
    ||| n == 0x1680
    ||| 0x2000 <= n <= 0x200a
    ||| n == 0x2028
    ||| n == 0x2029
    ||| n == 0x202f
    ||| n == 0x205f
    ||| n == 0x3000
}

/// `str::to_lowercase`: the result depends on the text alone. The Unicode case tables behind it
/// are not stated.
pub assume_specification[ str::to_lowercase ](s: &str) -> (r: String)
    ensures
        r@ == lowercase(s@),
;

/// `str::to_uppercase`: the result depends on the text alone. The Unicode case tables behind it
/// are not stated.
pub assume_specification[ str::to_uppercase ](s: &str) -> (r: String)
    ensures
        r@ == uppercase(s@),
;

/// `char::is_whitespace`: it holds of the characters with the Unicode property `White_Space`, and
/// of no others.
pub assume_specification[ char::is_whitespace ](c: char) -> (r: bool)
    ensures
        r == whitespace(c),
;

/// `part` stands in `text` from position `at` on.
pub open spec fn occurs_at(text: Seq<char>, part: Seq<char>, at: int) -> bool {
    0 <= at && at + part.len() <= text.len() && text.subrange(at, at + part.len()) == part
}

/// `part` stands somewhere in `text`.
pub open spec fn contains(text: Seq<char>, part: Seq<char>) -> bool {
    exists|at: int| occurs_at(text, part, at)
}

/// `text` begins with `prefix`.
pub open spec fn begins_with(text: Seq<char>, prefix: Seq<char>) -> bool {
    occurs_at(text, prefix, 0)
}

/// `text` without `prefix` at its beginning, taken away as often as it stands there.
pub open spec fn without_prefixes(text: Seq<char>, prefix: Seq<char>) -> Seq<char>
    decreases text.len(),
{
    if prefix.len() > 0 && begins_with(text, prefix) {
        without_prefixes(text.skip(prefix.len() as int), prefix)
    } else {
        text
    }
}

/// What stands before the last `c` of `text`; all of it where there is none.
pub open spec fn before_last(text: Seq<char>, c: char) -> Seq<char> {
    match text.index_of_last(c) {
        Some(i) => text.take(i),
        None => text,
    }
}

/// What stands behind the last `c` of `text`; all of it where there is none.
pub open spec fn after_last(text: Seq<char>, c: char) -> Seq<char> {
    match text.index_of_last(c) {
        Some(i) => text.skip(i + 1),
        None => text,
    }
}

/// The parts of `text` between the separators `c`, empty ones included.
pub open spec fn split(text: Seq<char>, c: char) -> Seq<Seq<char>>
    decreases text.len(),
{
    match text.index_of_first(c) {
        Some(i) => if 0 <= i < text.len() {
            seq![text.take(i)] + split(text.skip(i + 1), c)
        } else {
            seq![text]
        },
        None => seq![text],
    }
}

/// `text` without the white space at its beginning.
pub open spec fn trim_start(text: Seq<char>) -> Seq<char>
    decreases text.len(),
{
    if text.len() > 0 && whitespace(text[0]) {
        trim_start(text.skip(1))
    } else {
        text
    }
}

/// `text` without the white space at its end.
pub open spec fn trim_end(text: Seq<char>) -> Seq<char>
    decreases text.len(),
{
    if text.len() > 0 && whitespace(text.last()) {
        trim_end(text.drop_last())
    } else {
        text
    }
}

/// `text` without the white space at both ends.
pub open spec fn trim(text: Seq<char>) -> Seq<char> {
    trim_end(trim_start(text))
}

/// The texts in order, with `sep` between each two.
pub open spec fn join(parts: Seq<Seq<char>>, sep: Seq<char>) -> Seq<char>
    decreases parts.len(),
{
    if parts.len() == 0 {
        Seq::empty()
    } else if parts.len() == 1 {
        parts[0]
    } else {
        join(parts.drop_last(), sep) + sep + parts.last()
    }
}

/// A number in decimal notation.
pub open spec fn decimal(n: nat) -> Seq<char>
    decreases n,
{
    let digit = "0123456789"@.subrange((n % 10) as int, (n % 10) as int + 1);
    if n < 10 {
        digit
    } else {
        decimal(n / 10) + digit
    }
}

/// `a` comes before `b` in the order of texts by code points.
pub open spec fn precedes(a: Seq<char>, b: Seq<char>) -> bool
    decreases a.len(),
{
    if b.len() == 0 {
        false
    } else if a.len() == 0 {
        true
    } else if a[0] == b[0] {
        precedes(a.skip(1), b.skip(1))
    } else {
        (a[0] as int) < (b[0] as int)
    }
}

/// Each text comes before those behind it; so none occurs twice.
pub open spec fn ascending(texts: Seq<Seq<char>>) -> bool {
    forall|i: int, j: int| 0 <= i < j < texts.len() ==> precedes(#[trigger] texts[i], #[trigger] texts[j])
}

/// The texts of a set in ascending order.
pub open spec fn in_order(texts: Set<Seq<char>>) -> Seq<Seq<char>> {
    choose|s: Seq<Seq<char>>| ascending(s) && s.to_set() == texts
}

pub(crate) proof fn lemma_precedes_irreflexive(a: Seq<char>)
    ensures
        !precedes(a, a),
    decreases a.len(),
{
    if a.len() > 0 {
        lemma_precedes_irreflexive(a.skip(1));
    }
}

pub(crate) proof fn lemma_precedes_transitive(a: Seq<char>, b: Seq<char>, c: Seq<char>)
    requires
        precedes(a, b),
        precedes(b, c),
    ensures
        precedes(a, c),
    decreases a.len(),
{
    if a.len() > 0 && a[0] == b[0] && b[0] == c[0] {
        lemma_precedes_transitive(a.skip(1), b.skip(1), c.skip(1));
    }
}

pub(crate) proof fn lemma_precedes_total(a: Seq<char>, b: Seq<char>)
    ensures
        a == b || precedes(a, b) || precedes(b, a),
    decreases a.len(),
{
    if a.len() > 0 && b.len() > 0 && a[0] == b[0] {
        lemma_precedes_total(a.skip(1), b.skip(1));
        if a.skip(1) == b.skip(1) {
            assert(a =~= b) by {
                assert forall|i: int| 0 <= i < a.len() implies a[i] == b[i] by {
                    if i > 0 {
                        assert(a[i] == a.skip(1)[i - 1]);
                        assert(b[i] == b.skip(1)[i - 1]);
                    }
                }
                assert(a.len() == a.skip(1).len() + 1);
                assert(b.len() == b.skip(1).len() + 1);
            }
        }
    } else if a.len() == 0 && b.len() == 0 {
        assert(a =~= b);
    }
}

/// Two ascending sequences of the same texts are equal.
pub(crate) proof fn lemma_ascending_unique(a: Seq<Seq<char>>, b: Seq<Seq<char>>)
    requires
        ascending(a),
        ascending(b),
        a.to_set() == b.to_set(),
    ensures
        a == b,
    decreases a.len(),
{
    if a.len() == 0 {
        if b.len() > 0 {
            assert(b.to_set().contains(b[0]));
            assert(a.contains(b[0]));
        }
        assert(a =~= b);
    } else {
        assert(a.to_set().contains(a[0]));
        assert(b.contains(a[0]));
        assert(b.len() > 0);
        assert(b.to_set().contains(b[0]));
        assert(a.contains(b[0]));
        let i = choose|i: int| 0 <= i < a.len() && a[i] == b[0];
        let j = choose|j: int| 0 <= j < b.len() && b[j] == a[0];
        if a[0] != b[0] {
            assert(precedes(a[0], a[i]));
            assert(precedes(b[0], b[j]));
            lemma_precedes_transitive(a[0], b[0], a[0]);
            lemma_precedes_irreflexive(a[0]);
        }
        let ta = a.skip(1);
        let tb = b.skip(1);
        assert forall|x: Seq<char>| ta.to_set().contains(x) == tb.to_set().contains(x) by {
            lemma_tail_of_ascending(a, x);
            lemma_tail_of_ascending(b, x);
            assert(a.to_set().contains(x) == a.contains(x));
            assert(b.to_set().contains(x) == b.contains(x));
            assert(ta.contains(x) == tb.contains(x));
        }
        assert(ta.to_set() =~= tb.to_set());
        assert(ascending(ta)) by {
            assert forall|p: int, q: int| 0 <= p < q < ta.len() implies precedes(#[trigger] ta[p], #[trigger] ta[q]) by {
                assert(ta[p] == a[p + 1] && ta[q] == a[q + 1]);
            }
        }
        assert(ascending(tb)) by {
            assert forall|p: int, q: int| 0 <= p < q < tb.len() implies precedes(#[trigger] tb[p], #[trigger] tb[q]) by {
                assert(tb[p] == b[p + 1] && tb[q] == b[q + 1]);
            }
        }
        lemma_ascending_unique(ta, tb);
        assert(a =~= seq![a[0]] + ta);
        assert(b =~= seq![b[0]] + tb);
    }
}

proof fn lemma_tail_of_ascending(a: Seq<Seq<char>>, x: Seq<char>)
    requires
        ascending(a),
        a.len() > 0,
    ensures
        a.skip(1).contains(x) == (a.contains(x) && x != a[0]),
{
    if a.skip(1).contains(x) {
        let k = choose|k: int| 0 <= k < a.skip(1).len() && a.skip(1)[k] == x;
        assert(a[k + 1] == x);
        lemma_precedes_irreflexive(x);
        assert(precedes(a[0], a[k + 1]));
    }
    if a.contains(x) && x != a[0] {
        let k = choose|k: int| 0 <= k < a.len() && a[k] == x;
        assert(a.skip(1)[k - 1] == x);
    }
}

/// An ascending sequence is the only one of its texts.
pub(crate) proof fn lemma_in_order(texts: Set<Seq<char>>, s: Seq<Seq<char>>)
    requires
        ascending(s),
        s.to_set() == texts,
    ensures
        in_order(texts) == s,
{
    lemma_ascending_unique(in_order(texts), s);
}

proof fn lemma_ascending_insert(s: Seq<Seq<char>>, x: Seq<char>)
    requires
        ascending(s),
        !s.contains(x),
    ensures
        exists|t: Seq<Seq<char>>| ascending(t) && #[trigger] t.to_set() == s.to_set().insert(x),
    decreases s.len(),
{
    if s.len() == 0 {
        let t = seq![x];
        assert(t[0] == x);
        assert(t.to_set() =~= s.to_set().insert(x));
        assert(ascending(t));
    } else {
        let last = s.last();
        assert(s.contains(last));
        lemma_precedes_total(last, x);
        if precedes(last, x) {
            let t = s.push(x);
            assert(ascending(t)) by {
                assert forall|i: int, j: int| 0 <= i < j < t.len() implies precedes(#[trigger] t[i], #[trigger] t[j]) by {
                    if j == s.len() && i < s.len() - 1 {
                        assert(precedes(s[i], s[s.len() - 1]));
                        lemma_precedes_transitive(s[i], last, x);
                    }
                }
            }
            s.lemma_push_to_set_commute(x);
            assert(t.to_set() == s.to_set().insert(x));
        } else {
            let front = s.drop_last();
            assert forall|i: int, j: int| 0 <= i < j < front.len() implies precedes(#[trigger] front[i], #[trigger] front[j]) by {
                assert(precedes(s[i], s[j]));
            }
            assert(!front.contains(x)) by {
                if front.contains(x) {
                    let k = choose|k: int| 0 <= k < front.len() && front[k] == x;
                    assert(s[k] == x);
                }
            }
            lemma_ascending_insert(front, x);
            let u = choose|t: Seq<Seq<char>>| ascending(t) && #[trigger] t.to_set() == front.to_set().insert(x);
            let t = u.push(last);
            assert(ascending(t)) by {
                assert forall|i: int, j: int| 0 <= i < j < t.len() implies precedes(#[trigger] t[i], #[trigger] t[j]) by {
                    if j == u.len() {
                        assert(u.to_set().contains(u[i]));
                        assert(front.to_set().insert(x).contains(u[i]));
                        if u[i] != x {
                            assert(front.to_set().contains(u[i]));
                            assert(front.contains(u[i]));
                            let k = choose|k: int| 0 <= k < front.len() && front[k] == u[i];
                            assert(precedes(s[k], s[s.len() - 1]));
                        }
                    }
                }
            }
            u.lemma_push_to_set_commute(last);
            front.lemma_push_to_set_commute(last);
            assert(front.push(last) =~= s);
            assert(t.to_set() =~= s.to_set().insert(x));
        }
    }
}

/// The texts of a finite set can be put in ascending order.
pub(crate) proof fn lemma_in_order_exists(texts: Set<Seq<char>>)
    requires
        texts.finite(),
    ensures
        ascending(in_order(texts)),
        in_order(texts).to_set() == texts,
    decreases texts.len(),
{
    if texts.len() == 0 {
        let t = Seq::<Seq<char>>::empty();
        assert(t.to_set() =~= texts);
        assert(ascending(t));
    } else {
        let x = texts.choose();
        let rest = texts.remove(x);
        lemma_in_order_exists(rest);
        let s = in_order(rest);
        assert(!s.contains(x)) by {
            assert(s.to_set().contains(x) == s.contains(x));
        }
        lemma_ascending_insert(s, x);
        let t = choose|t: Seq<Seq<char>>| ascending(t) && #[trigger] t.to_set() == s.to_set().insert(x);
        assert(rest.insert(x) =~= texts);
        assert(ascending(t) && t.to_set() == texts);
    }
}

pub(crate) proof fn lemma_first_index(text: Seq<char>, c: char, i: int)
    requires
        0 <= i < text.len(),
        text[i] == c,
        forall|j: int| 0 <= j < i ==> text[j] != c,
    ensures
        text.index_of_first(c) == Some(i),
{
    text.index_of_first_ensures(c);
    assert(text.contains(c));
}

pub(crate) proof fn lemma_last_index(text: Seq<char>, c: char, i: int)
    requires
        0 <= i < text.len(),
        text[i] == c,
        forall|j: int| i < j < text.len() ==> text[j] != c,
    ensures
        text.index_of_last(c) == Some(i),
{
    text.index_of_last_ensures(c);
    assert(text.contains(c));
}

} // verus!
