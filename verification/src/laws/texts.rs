//! Laws of texts: what the operations on them give, character by character.
use vstd::prelude::*;

use crate::text::{
    after_last, before_last, begins_with, contains, decimal, in_order, join, lemma_first_index,
    lemma_in_order_exists, lemma_last_index, occurs_at, precedes, split, trim, trim_end, trim_start,
    whitespace, without_prefixes,
};

verus! {

/// A text between two others.
pub open spec fn between(a: Seq<char>, part: Seq<char>, b: Seq<char>) -> Seq<char> {
    a + part + b
}

/// A text so many times.
pub open spec fn repeated(part: Seq<char>, n: nat) -> Seq<char>
    decreases n,
{
    if n == 0 {
        Seq::empty()
    } else {
        part + repeated(part, (n - 1) as nat)
    }
}

/// The first characters of a text are those of another.
pub open spec fn same_beginning(whole: Seq<char>, prefix: Seq<char>) -> bool {
    whole.len() >= prefix.len() && forall|i: int|
        0 <= i < prefix.len() ==> #[trigger] whole[i] == prefix[i]
}

/// A text contains another if and only if it is that one between two others.
pub proof fn law_contained_text_stands_between_two(whole: Seq<char>, part: Seq<char>)
    ensures
        contains(whole, part) == exists|a: Seq<char>, b: Seq<char>| whole == #[trigger] between(a, part, b),
{
    if contains(whole, part) {
        let at = choose|at: int| occurs_at(whole, part, at);
        let a = whole.take(at);
        let b = whole.skip(at + part.len());
        assert(whole =~= whole.take(at) + whole.subrange(at, at + part.len()) + whole.skip(
            at + part.len(),
        ));
        assert(whole == between(a, part, b));
    }
    if exists|a: Seq<char>, b: Seq<char>| whole == #[trigger] between(a, part, b) {
        let (a, b) = choose|a: Seq<char>, b: Seq<char>| whole == #[trigger] between(a, part, b);
        let at = a.len() as int;
        assert(whole.subrange(at, at + part.len()) =~= part);
        assert(occurs_at(whole, part, at));
    }
}

/// A text begins with another if and only if its first characters are those of the other.
pub proof fn law_texts_begin_alike(whole: Seq<char>, prefix: Seq<char>)
    ensures
        begins_with(whole, prefix) == same_beginning(whole, prefix),
{
    if begins_with(whole, prefix) {
        assert forall|i: int| 0 <= i < prefix.len() implies #[trigger] whole[i] == prefix[i] by {
            assert(whole.subrange(0, prefix.len() as int)[i] == prefix[i]);
        }
    }
    if same_beginning(whole, prefix) {
        assert(whole.subrange(0, prefix.len() as int) =~= prefix);
    }
}

/// Taking a prefix off a text leaves what stands behind its repetitions, and that does not begin
/// with it.
pub proof fn law_prefixes_are_taken_off(whole: Seq<char>, prefix: Seq<char>)
    requires
        prefix.len() > 0,
    ensures
        !same_beginning(without_prefixes(whole, prefix), prefix),
        exists|n: nat| whole == #[trigger] repeated(prefix, n) + without_prefixes(whole, prefix),
    decreases whole.len(),
{
    law_texts_begin_alike(whole, prefix);
    if begins_with(whole, prefix) {
        let tail = whole.skip(prefix.len() as int);
        law_prefixes_are_taken_off(tail, prefix);
        let n = choose|n: nat| tail == #[trigger] repeated(prefix, n) + without_prefixes(tail, prefix);
        assert(whole =~= prefix + tail);
        assert(repeated(prefix, n + 1) == prefix + repeated(prefix, n));
        assert(whole =~= repeated(prefix, n + 1) + without_prefixes(whole, prefix));
    } else {
        assert(whole =~= repeated(prefix, 0) + without_prefixes(whole, prefix));
    }
}

/// A text is parted at the last of its separators.
pub proof fn law_parted_at_the_last(a: Seq<char>, c: char, b: Seq<char>)
    requires
        !b.contains(c),
    ensures
        before_last(between(a, seq![c], b), c) == a,
        after_last(between(a, seq![c], b), c) == b,
        before_last(b, c) == b,
        after_last(b, c) == b,
{
    let whole = between(a, seq![c], b);
    let n = a.len() as int;
    assert(whole[n] == c);
    assert forall|j: int| n < j < whole.len() implies whole[j] != c by {
        assert(whole[j] == b[j - n - 1]);
    }
    lemma_last_index(whole, c, n);
    assert(whole.take(n) =~= a);
    assert(whole.skip(n + 1) =~= b);
    b.index_of_last_ensures(c);
}

/// A text is split at its first separator, and then what stands behind it.
pub proof fn law_split_part_by_part(a: Seq<char>, c: char, b: Seq<char>)
    requires
        !a.contains(c),
    ensures
        split(a, c) == seq![a],
        split(between(a, seq![c], b), c) == seq![a] + split(b, c),
{
    let whole = between(a, seq![c], b);
    let n = a.len() as int;
    a.index_of_first_ensures(c);
    assert(whole[n] == c);
    assert forall|j: int| 0 <= j < n implies whole[j] != c by {
        assert(whole[j] == a[j]);
    }
    lemma_first_index(whole, c, n);
    assert(whole.take(n) =~= a);
    assert(whole.skip(n + 1) =~= b);
}

/// Nothing but white space.
pub open spec fn blank(chars: Seq<char>) -> bool {
    forall|i: int| 0 <= i < chars.len() ==> whitespace(#[trigger] chars[i])
}

proof fn lemma_trim_start(chars: Seq<char>)
    ensures
        exists|lead: Seq<char>| blank(lead) && chars == #[trigger] (lead + trim_start(chars)),
        trim_start(chars).len() > 0 ==> !whitespace(trim_start(chars)[0]),
    decreases chars.len(),
{
    if chars.len() > 0 && whitespace(chars[0]) {
        let tail = chars.skip(1);
        lemma_trim_start(tail);
        let lead = choose|lead: Seq<char>| blank(lead) && tail == #[trigger] (lead + trim_start(tail));
        let more = seq![chars[0]] + lead;
        assert(blank(more)) by {
            assert forall|i: int| 0 <= i < more.len() implies whitespace(#[trigger] more[i]) by {
                if i > 0 {
                    assert(more[i] == lead[i - 1]);
                }
            }
        }
        assert(chars =~= seq![chars[0]] + tail);
        assert(chars =~= more + trim_start(chars));
    } else {
        let lead = Seq::<char>::empty();
        assert(blank(lead));
        assert(chars =~= lead + trim_start(chars));
    }
}

proof fn lemma_trim_end(chars: Seq<char>)
    ensures
        exists|tail: Seq<char>| blank(tail) && chars == #[trigger] (trim_end(chars) + tail),
        trim_end(chars).len() > 0 ==> !whitespace(trim_end(chars).last()) && trim_end(chars)[0]
            == chars[0],
    decreases chars.len(),
{
    if chars.len() > 0 && whitespace(chars.last()) {
        let front = chars.drop_last();
        lemma_trim_end(front);
        let tail = choose|tail: Seq<char>| blank(tail) && front == #[trigger] (trim_end(front) + tail);
        let more = tail.push(chars.last());
        assert(blank(more)) by {
            assert forall|i: int| 0 <= i < more.len() implies whitespace(#[trigger] more[i]) by {
                if i < tail.len() {
                    assert(more[i] == tail[i]);
                }
            }
        }
        assert(chars =~= front.push(chars.last()));
        assert(chars =~= trim_end(chars) + more);
        assert(trim_end(front).len() > 0 ==> front.len() > 0 && front[0] == chars[0]);
    } else {
        let tail = Seq::<char>::empty();
        assert(blank(tail));
        assert(chars =~= trim_end(chars) + tail);
    }
}

/// Trimming a text takes white space off both ends, and leaves none there.
pub proof fn law_trimmed_text(chars: Seq<char>)
    ensures
        exists|lead: Seq<char>, tail: Seq<char>|
            blank(lead) && blank(tail) && chars == #[trigger] between(lead, trim(chars), tail),
        trim(chars).len() > 0 ==> !whitespace(trim(chars)[0]) && !whitespace(trim(chars).last()),
{
    let rest = trim_start(chars);
    lemma_trim_start(chars);
    lemma_trim_end(rest);
    let lead = choose|lead: Seq<char>| blank(lead) && chars == #[trigger] (lead + rest);
    let tail = choose|tail: Seq<char>| blank(tail) && rest == #[trigger] (trim_end(rest) + tail);
    assert(chars =~= between(lead, trim(chars), tail));
}

/// Joined lists are joined themselves.
pub proof fn law_joined_lists(a: Seq<Seq<char>>, b: Seq<Seq<char>>, sep: Seq<char>, one: Seq<char>)
    requires
        a.len() > 0,
        b.len() > 0,
    ensures
        join(Seq::empty(), sep) == Seq::<char>::empty(),
        join(seq![one], sep) == one,
        join(a + b, sep) == join(a, sep) + sep + join(b, sep),
    decreases b.len(),
{
    let all = a + b;
    assert(all.last() == b.last());
    assert(all.drop_last() =~= a + b.drop_last());
    if b.len() == 1 {
        assert(a + b.drop_last() =~= a);
        assert(join(b, sep) == b.last());
    } else {
        law_joined_lists(a, b.drop_last(), sep, one);
        assert(join(all, sep) =~= join(a, sep) + sep + join(b, sep));
    }
}

/// The number that decimal digits stand for.
pub open spec fn number(digits: Seq<char>) -> int
    decreases digits.len(),
{
    if digits.len() == 0 {
        0
    } else {
        number(digits.drop_last()) * 10 + (digits.last() as int - '0' as int)
    }
}

proof fn lemma_digit(n: nat)
    requires
        n < 10,
    ensures
        "0123456789"@.subrange(n as int, n as int + 1).len() == 1,
        "0123456789"@.subrange(n as int, n as int + 1)[0] as int == '0' as int + n,
{
    reveal_strlit("0123456789");
    assert("0123456789"@.len() == 10);
    let c = "0123456789"@[n as int];
    assert(n == 0 ==> c == '0');
    assert(n == 1 ==> c == '1');
    assert(n == 2 ==> c == '2');
    assert(n == 3 ==> c == '3');
    assert(n == 4 ==> c == '4');
    assert(n == 5 ==> c == '5');
    assert(n == 6 ==> c == '6');
    assert(n == 7 ==> c == '7');
    assert(n == 8 ==> c == '8');
    assert(n == 9 ==> c == '9');
}

/// A number in decimal notation is written in digits that stand for it, without a leading zero.
pub proof fn law_decimal_digits(n: nat)
    ensures
        number(decimal(n)) == n,
        forall|i: int| 0 <= i < decimal(n).len() ==> '0' <= #[trigger] decimal(n)[i] <= '9',
        decimal(n).len() > 0,
        decimal(n).len() > 1 ==> decimal(n)[0] != '0',
        n < 10 ==> decimal(n).len() == 1,
    decreases n,
{
    let digit = "0123456789"@.subrange((n % 10) as int, (n % 10) as int + 1);
    lemma_digit(n % 10);
    if n < 10 {
        assert(decimal(n) == digit);
        assert(digit.drop_last() =~= Seq::empty());
        assert(number(digit.drop_last()) == 0);
    } else {
        law_decimal_digits(n / 10);
        let front = decimal(n / 10);
        assert(decimal(n) == front + digit);
        assert((front + digit).drop_last() =~= front);
        assert forall|i: int| 0 <= i < decimal(n).len() implies '0' <= #[trigger] decimal(n)[i] <= '9' by {
            if i < front.len() {
                assert(decimal(n)[i] == front[i]);
            }
        }
        if front.len() == 1 {
            assert(front.drop_last() =~= Seq::empty());
            assert(number(front.drop_last()) == 0);
        }
        assert(decimal(n)[0] == front[0]);
    }
}

/// Two texts are alike before a position, where the first one ends or has the smaller character.
pub open spec fn smaller_at(a: Seq<char>, b: Seq<char>, k: int) -> bool {
    &&& 0 <= k <= a.len()
    &&& k < b.len()
    &&& forall|j: int| 0 <= j < k ==> a[j] == b[j]
    &&& k < a.len() ==> (a[k] as int) < (b[k] as int)
}

/// A text precedes another if and only if it is smaller where they first differ.
pub proof fn law_order_of_texts(a: Seq<char>, b: Seq<char>)
    ensures
        precedes(a, b) == exists|k: int| smaller_at(a, b, k),
    decreases a.len(),
{
    if a.len() > 0 && b.len() > 0 && a[0] == b[0] {
        let ta = a.skip(1);
        let tb = b.skip(1);
        law_order_of_texts(ta, tb);
        if exists|k: int| smaller_at(ta, tb, k) {
            let k = choose|k: int| smaller_at(ta, tb, k);
            assert forall|j: int| 0 <= j < k + 1 implies a[j] == b[j] by {
                if j > 0 {
                    assert(ta[j - 1] == a[j] && tb[j - 1] == b[j]);
                }
            }
            assert(k < ta.len() ==> ta[k] == a[k + 1]);
            assert(tb[k] == b[k + 1]);
            assert(smaller_at(a, b, k + 1));
        }
        if exists|k: int| smaller_at(a, b, k) {
            let k = choose|k: int| smaller_at(a, b, k);
            assert(k > 0);
            assert forall|j: int| 0 <= j < k - 1 implies ta[j] == tb[j] by {
                assert(ta[j] == a[j + 1] && tb[j] == b[j + 1]);
            }
            assert(smaller_at(ta, tb, k - 1));
        }
    } else {
        if precedes(a, b) {
            assert(smaller_at(a, b, 0));
        }
        if exists|k: int| smaller_at(a, b, k) {
            let k = choose|k: int| smaller_at(a, b, k);
            if k > 0 {
                assert(a[0] == b[0]);
            }
        }
    }
}

/// A finite set of texts is listed in order: each text of it, no other, and each once.
pub proof fn law_texts_in_order(texts: Set<Seq<char>>, x: Seq<char>)
    requires
        texts.finite(),
    ensures
        in_order(texts).contains(x) == texts.contains(x),
        forall|i: int, j: int|
            0 <= i < j < in_order(texts).len() ==> precedes(
                #[trigger] in_order(texts)[i],
                #[trigger] in_order(texts)[j],
            ),
{
    lemma_in_order_exists(texts);
    assert(in_order(texts).to_set().contains(x) == in_order(texts).contains(x));
}

} // verus!
