//! The string operations that the rest of the library uses.
use vstd::prelude::*;

use crate::text;

verus! {

/// The characters of a text.
pub fn chars_of(s: &str) -> (r: Vec<char>)
    ensures
        r@ == s@,
{
    let mut out: Vec<char> = Vec::new();
    for c in it: s.chars()
        invariant
            out@ == it.seq().take(it.index()),
            it.seq() == s@,
    {
        out.push(c);
    }
    out
}

/// Whether two texts are equal.
pub fn equal(a: &str, b: &str) -> (r: bool)
    ensures
        r == (a@ == b@),
{
    a.to_owned() == b.to_owned()
}

/// The characters of `s` from `from` up to, not including, `to`.
pub fn slice(s: &str, from: usize, to: usize) -> (r: String)
    requires
        from <= to <= s@.len(),
    ensures
        r@ == s@.subrange(from as int, to as int),
{
    s.substring_char(from, to).to_owned()
}

/// The texts `a` and `b` in one.
pub fn concat(a: &str, b: &str) -> (r: String)
    ensures
        r@ == a@ + b@,
{
    a.to_owned().concat(b)
}

fn matches_at(text: &Vec<char>, part: &Vec<char>, at: usize) -> (r: bool)
    requires
        at <= text@.len(),
    ensures
        r == text::occurs_at(text@, part@, at as int),
{
    let n = text.len();
    if part.len() > n - at {
        return false;
    }
    let mut i: usize = 0;
    while i < part.len()
        invariant
            i <= part@.len() <= n - at,
            at <= n == text@.len(),
            forall|j: int| 0 <= j < i ==> text@[at + j] == part@[j],
        decreases part@.len() - i,
    {
        if text[at + i] != part[i] {
            assert(text@.subrange(at as int, at + part@.len())[i as int] != part@[i as int]);
            return false;
        }
        i += 1;
    }
    assert(text@.subrange(at as int, at + part@.len()) =~= part@);
    true
}

/// `str::contains` with a text.
pub fn contains(text: &str, part: &str) -> (r: bool)
    ensures
        r == text::contains(text@, part@),
{
    let chars = chars_of(text);
    let wanted = chars_of(part);
    let mut at: usize = 0;
    while at < chars.len()
        invariant
            at <= chars@.len(),
            chars@ == text@,
            wanted@ == part@,
            forall|j: int| 0 <= j < at ==> !text::occurs_at(text@, part@, j),
        decreases chars@.len() - at,
    {
        if matches_at(&chars, &wanted, at) {
            return true;
        }
        at += 1;
    }
    matches_at(&chars, &wanted, at)
}

/// `str::starts_with` with a text.
pub fn starts_with(text: &str, prefix: &str) -> (r: bool)
    ensures
        r == text::begins_with(text@, prefix@),
{
    let chars = chars_of(text);
    let wanted = chars_of(prefix);
    matches_at(&chars, &wanted, 0)
}

/// `str::trim_start_matches` with a text that is not empty.
pub fn trim_start_matches(text: &str, prefix: &str) -> (r: String)
    requires
        prefix@.len() > 0,
    ensures
        r@ == text::without_prefixes(text@, prefix@),
{
    let chars = chars_of(text);
    let wanted = chars_of(prefix);
    let n = chars.len();
    let mut at: usize = 0;
    assert(text@.skip(0) =~= text@);
    while matches_at(&chars, &wanted, at)
        invariant
            at <= n == chars@.len(),
            chars@ == text@,
            wanted@ == prefix@,
            prefix@.len() > 0,
            text::without_prefixes(text@.skip(at as int), prefix@) == text::without_prefixes(
                text@,
                prefix@,
            ),
        decreases chars@.len() - at,
    {
        proof {
            lemma_occurs_in_tail(text@, prefix@, at as int);
            assert(text@.skip(at as int).skip(prefix@.len() as int) =~= text@.skip(at + prefix@.len()));
        }
        at += wanted.len();
    }
    proof {
        lemma_occurs_in_tail(text@, prefix@, at as int);
    }
    assert(text@.subrange(at as int, n as int) =~= text@.skip(at as int));
    slice(text, at, n)
}

proof fn lemma_occurs_in_tail(text: Seq<char>, part: Seq<char>, at: int)
    requires
        0 <= at <= text.len(),
    ensures
        text::occurs_at(text, part, at) == text::begins_with(text.skip(at), part),
{
    if at + part.len() <= text.len() {
        assert(text.subrange(at, at + part.len()) =~= text.skip(at).subrange(0, part.len() as int));
    }
}

/// The first position from `from` on at which `c` stands.
pub fn find(chars: &Vec<char>, c: char, from: usize) -> (r: Option<usize>)
    requires
        from <= chars@.len(),
    ensures
        match chars@.skip(from as int).index_of_first(c) {
            Some(i) => 0 <= i < chars@.len() - from && r is Some && r->0 == from + i,
            None => r is None,
        },
{
    let ghost tail = chars@.skip(from as int);
    let mut i: usize = from;
    while i < chars.len()
        invariant
            from <= i <= chars@.len(),
            tail == chars@.skip(from as int),
            forall|j: int| 0 <= j < i - from ==> tail[j] != c,
        decreases chars@.len() - i,
    {
        if chars[i] == c {
            proof {
                text::lemma_first_index(tail, c, i - from);
            }
            return Some(i);
        }
        i += 1;
    }
    proof {
        tail.index_of_first_ensures(c);
    }
    None
}

/// The last position at which `c` stands.
pub fn rfind(chars: &Vec<char>, c: char) -> (r: Option<usize>)
    ensures
        match chars@.index_of_last(c) {
            Some(i) => 0 <= i < chars@.len() && r is Some && r->0 == i,
            None => r is None,
        },
{
    let mut i: usize = chars.len();
    while i > 0
        invariant
            i <= chars@.len(),
            forall|j: int| i <= j < chars@.len() ==> chars@[j] != c,
        decreases i,
    {
        i -= 1;
        if chars[i] == c {
            proof {
                text::lemma_last_index(chars@, c, i as int);
            }
            return Some(i);
        }
    }
    proof {
        chars@.index_of_last_ensures(c);
    }
    None
}

/// What stands before the last `c`; the whole text where there is none.
pub fn before_last(text: &str, c: char) -> (r: String)
    ensures
        r@ == text::before_last(text@, c),
{
    let chars = chars_of(text);
    match rfind(&chars, c) {
        Some(i) => {
            assert(text@.subrange(0, i as int) =~= text@.take(i as int));
            slice(text, 0, i)
        },
        None => text.to_owned(),
    }
}

/// What stands behind the last `c`; the whole text where there is none.
pub fn after_last(text: &str, c: char) -> (r: String)
    ensures
        r@ == text::after_last(text@, c),
{
    let chars = chars_of(text);
    let n = chars.len();
    match rfind(&chars, c) {
        Some(i) => {
            assert(text@.subrange(i + 1, n as int) =~= text@.skip(i + 1));
            slice(text, i + 1, n)
        },
        None => text.to_owned(),
    }
}

/// `str::split` at a character.
pub fn split(text: &str, c: char) -> (r: Vec<String>)
    ensures
        r.deep_view() == text::split(text@, c),
        r@.len() > 0,
{
    let chars = chars_of(text);
    let n = chars.len();
    let mut parts: Vec<String> = Vec::new();
    let mut from: usize = 0;
    let ghost whole = text::split(text@, c);
    assert(text@.skip(0) =~= text@);
    assert(parts.deep_view() + text::split(text@.skip(0), c) =~= whole);
    loop
        invariant
            n == chars@.len(),
            chars@ == text@,
            from <= n,
            parts.deep_view() + text::split(text@.skip(from as int), c) == whole,
            whole == text::split(text@, c),
        decreases n - from,
    {
        let ghost before = parts.deep_view();
        let ghost tail = text@.skip(from as int);
        match find(&chars, c, from) {
            Some(i) => {
                let part = slice(text, from, i);
                parts.push(part);
                assert(part@ =~= tail.take(i - from));
                assert(tail.skip(i - from + 1) =~= text@.skip(i + 1));
                assert(parts.deep_view() =~= before.push(part@));
                assert(parts.deep_view() + text::split(text@.skip(i + 1), c) =~= before + (seq![part@] + text::split(tail.skip(i - from + 1), c)));
                from = i + 1;
            },
            None => {
                let part = slice(text, from, n);
                parts.push(part);
                assert(part@ =~= tail);
                assert(parts.deep_view() =~= before.push(part@));
                assert(before.push(part@) =~= before + seq![tail]);
                return parts;
            },
        }
    }
}

/// `str::trim`.
pub fn trim(text: &str) -> (r: String)
    ensures
        r@ == text::trim(text@),
{
    let chars = chars_of(text);
    let n = chars.len();
    let mut from: usize = 0;
    assert(text@.skip(0) =~= text@);
    while from < n && chars[from].is_whitespace()
        invariant
            n == chars@.len(),
            chars@ == text@,
            from <= n,
            text::trim_start(text@.skip(from as int)) == text::trim_start(text@),
        decreases n - from,
    {
        assert(text@.skip(from as int).skip(1) =~= text@.skip(from + 1));
        from += 1;
    }
    let mut to: usize = n;
    let ghost rest = text@.skip(from as int);
    assert(rest == text::trim_start(text@));
    assert(text@.subrange(from as int, to as int) =~= rest);
    while to > from && chars[to - 1].is_whitespace()
        invariant
            n == chars@.len(),
            chars@ == text@,
            from <= to <= n,
            text::trim_end(text@.subrange(from as int, to as int)) == text::trim_end(rest),
        decreases to,
    {
        assert(text@.subrange(from as int, to as int).drop_last() =~= text@.subrange(from as int, to - 1));
        to -= 1;
    }
    slice(text, from, to)
}

/// The texts in order, with `sep` between each two.
pub fn join(parts: &Vec<String>, sep: &str) -> (r: String)
    ensures
        r@ == text::join(parts.deep_view(), sep@),
{
    let mut out = String::new();
    let mut i: usize = 0;
    let ghost all = parts.deep_view();
    while i < parts.len()
        invariant
            i <= parts@.len(),
            all == parts.deep_view(),
            out@ == text::join(all.take(i as int), sep@),
        decreases parts@.len() - i,
    {
        if i > 0 {
            out.append(sep);
        }
        out.append(parts[i].as_str());
        proof {
            assert(all.take(i + 1).drop_last() =~= all.take(i as int));
            assert(all.take(i + 1).last() == parts@[i as int]@);
            if i == 0 {
                assert(out@ =~= parts@[0]@);
            }
        }
        i += 1;
    }
    assert(all.take(parts@.len() as int) =~= all);
    out
}

/// `usize` in decimal notation.
pub fn decimal(n: usize) -> (r: String)
    ensures
        r@ == text::decimal(n as nat),
    decreases n,
{
    proof {
        reveal_strlit("0123456789");
    }
    let digit = slice("0123456789", n % 10, n % 10 + 1);
    if n < 10 {
        digit
    } else {
        concat(decimal(n / 10).as_str(), digit.as_str())
    }
}

/// Whether `a` comes before `b` in the order of texts by code points.
pub fn precedes(a: &str, b: &str) -> (r: bool)
    ensures
        r == text::precedes(a@, b@),
{
    let x = chars_of(a);
    let y = chars_of(b);
    let mut i: usize = 0;
    assert(a@.skip(0) =~= a@ && b@.skip(0) =~= b@);
    while i < x.len() && i < y.len()
        invariant
            x@ == a@,
            y@ == b@,
            i <= x@.len(),
            i <= y@.len(),
            text::precedes(a@.skip(i as int), b@.skip(i as int)) == text::precedes(a@, b@),
        decreases x@.len() - i,
    {
        if x[i] != y[i] {
            return x[i] < y[i];
        }
        assert(a@.skip(i as int).skip(1) =~= a@.skip(i + 1));
        assert(b@.skip(i as int).skip(1) =~= b@.skip(i + 1));
        i += 1;
    }
    i < y.len()
}

/// The position of a text in a list.
pub fn position(texts: &Vec<String>, text: &str) -> (r: Option<usize>)
    ensures
        match r {
            Some(i) => i < texts@.len() && texts.deep_view()[i as int] == text@ && forall|j: int|
                0 <= j < i ==> texts.deep_view()[j] != text@,
            None => !texts.deep_view().contains(text@),
        },
{
    let mut i: usize = 0;
    while i < texts.len()
        invariant
            i <= texts@.len(),
            forall|j: int| 0 <= j < i ==> texts.deep_view()[j] != text@,
        decreases texts@.len() - i,
    {
        if equal(texts[i].as_str(), text) {
            return Some(i);
        }
        i += 1;
    }
    None
}

/// Whether a list holds a text.
pub fn holds(texts: &Vec<String>, text: &str) -> (r: bool)
    ensures
        r == texts.deep_view().contains(text@),
{
    match position(texts, text) {
        Some(i) => {
            assert(texts.deep_view()[i as int] == text@);
            true
        },
        None => false,
    }
}

/// The texts of a list in ascending order, each once.
pub fn sorted(texts: &Vec<String>) -> (r: Vec<String>)
    ensures
        r.deep_view() == text::in_order(texts.deep_view().to_set()),
        text::ascending(r.deep_view()),
        r.deep_view().to_set() == texts.deep_view().to_set(),
{
    let mut out: Vec<String> = Vec::new();
    let mut i: usize = 0;
    let ghost all = texts.deep_view();
    assert(out.deep_view().to_set() =~= all.take(0).to_set());
    while i < texts.len()
        invariant
            i <= texts@.len(),
            all == texts.deep_view(),
            text::ascending(out.deep_view()),
            out.deep_view().to_set() == all.take(i as int).to_set(),
        decreases texts@.len() - i,
    {
        let ghost before = out.deep_view();
        insert_in_order(&mut out, texts[i].as_str());
        assert(out.deep_view().to_set() =~= all.take(i + 1).to_set()) by {
            assert forall|x: Seq<char>| out.deep_view().contains(x) == all.take(i + 1).contains(x) by {
                assert(before.to_set().contains(x) == all.take(i as int).to_set().contains(x));
                let longer = all.take(i + 1);
                if longer.contains(x) {
                    let k = choose|k: int| 0 <= k < longer.len() && longer[k] == x;
                    if k < i {
                        assert(all.take(i as int)[k] == x);
                    }
                }
                let shorter = all.take(i as int);
                if shorter.contains(x) {
                    let k = choose|k: int| 0 <= k < shorter.len() && shorter[k] == x;
                    assert(longer[k] == x);
                }
                assert(longer[i as int] == texts@[i as int]@);
            }
        }
        i += 1;
    }
    assert(all.take(i as int) =~= all);
    proof {
        text::lemma_in_order(all.to_set(), out.deep_view());
    }
    out
}

/// Puts a text in its place in an ascending list, unless the list holds it.
fn insert_in_order(texts: &mut Vec<String>, text: &str)
    requires
        text::ascending(old(texts).deep_view()),
    ensures
        text::ascending(final(texts).deep_view()),
        forall|x: Seq<char>|
            #![auto]
            final(texts).deep_view().contains(x) == (old(texts).deep_view().contains(x) || x == text@),
{
    let mut i: usize = 0;
    let ghost before = texts.deep_view();
    while i < texts.len() && precedes(texts[i].as_str(), text)
        invariant
            i <= texts@.len(),
            texts.deep_view() == before,
            forall|j: int| 0 <= j < i ==> text::precedes(before[j], text@),
        decreases texts@.len() - i,
    {
        i += 1;
    }
    if i < texts.len() && equal(texts[i].as_str(), text) {
        assert(before[i as int] == text@);
        return;
    }
    texts.insert(i, text.to_owned());
    proof {
        let after = texts.deep_view();
        assert(after =~= before.insert(i as int, text@));
        assert forall|x: Seq<char>| after.contains(x) == (before.contains(x) || x == text@) by {
            if after.contains(x) && x != text@ {
                let k = choose|k: int| 0 <= k < after.len() && after[k] == x;
                if k < i {
                    assert(before[k] == x);
                } else {
                    assert(before[k - 1] == x);
                }
            }
            if before.contains(x) {
                let k = choose|k: int| 0 <= k < before.len() && before[k] == x;
                if k < i {
                    assert(after[k] == x);
                } else {
                    assert(after[k + 1] == x);
                }
            }
            assert(after[i as int] == text@);
        }
        if i < before.len() {
            text::lemma_precedes_total(before[i as int], text@);
        }
        assert forall|p: int, q: int| 0 <= p < q < after.len() implies text::precedes(#[trigger] after[p], #[trigger] after[q]) by {
            if q < i {
                assert(after[p] == before[p] && after[q] == before[q]);
            } else if q == i {
                assert(after[p] == before[p]);
            } else if p < i {
                assert(after[p] == before[p] && after[q] == before[q - 1]);
            } else if p == i {
                assert(after[q] == before[q - 1]);
                if q - 1 > i {
                    text::lemma_precedes_transitive(text@, before[i as int], before[q - 1]);
                }
            } else {
                assert(after[p] == before[p - 1] && after[q] == before[q - 1]);
            }
        }
    }
}

} // verus!
