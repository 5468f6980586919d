//! Laws of names: versions, and the words before a file's name in an answer.
use vstd::prelude::*;

use crate::laws::texts::{
    between, law_contained_text_stands_between_two, law_decimal_digits, number,
};
use crate::text;
use crate::version::{
    base, first_tag, lemma_first_tag, marks_version, names_version, number_mark, without_version_tags,
};

verus! {

/// A tag: the text between two brackets, with them.
pub open spec fn tag(inner: Seq<char>) -> Seq<char> {
    seq!['('] + inner + seq![')']
}

/// A file name of a stem and an extension.
pub open spec fn named(stem: Seq<char>, extension: Seq<char>) -> Seq<char> {
    stem + seq!['.'] + extension
}

proof fn lemma_stem(stem: Seq<char>, extension: Seq<char>)
    requires
        !extension.contains('.'),
    ensures
        text::before_last(named(stem, extension), '.') == stem,
{
    let whole = named(stem, extension);
    assert forall|j: int| stem.len() < j < whole.len() implies whole[j] != '.' by {
        assert(whole[j] == extension[j - stem.len() - 1]);
    }
    text::lemma_last_index(whole, '.', stem.len() as int);
    assert(whole.take(stem.len() as int) =~= stem);
}

/// The mark `v`, this character and a full stop.
pub open spec fn mark(digit: char) -> Seq<char> {
    seq!['v', digit, '.']
}

/// A text holds `v`, this character and a full stop.
pub open spec fn has_number(lower: Seq<char>, digit: char) -> bool {
    exists|a: Seq<char>, b: Seq<char>| lower == #[trigger] between(a, mark(digit), b)
}

/// A text in lower case names a version if and only if `v`, a digit and a full stop stand in it
/// side by side, or one of the words for a version.
pub proof fn law_what_marks_a_version(lower: Seq<char>)
    ensures
        marks_version(lower) == {
            ||| exists|digit: char| '0' <= digit <= '9' && #[trigger] has_number(lower, digit)
            ||| exists|a: Seq<char>, b: Seq<char>| lower == #[trigger] between(a, "rev "@, b)
            ||| exists|a: Seq<char>, b: Seq<char>| lower == #[trigger] between(a, "version"@, b)
        },
{
    law_contained_text_stands_between_two(lower, "rev "@);
    law_contained_text_stands_between_two(lower, "version"@);
    if exists|n: nat| n < 10 && text::contains(lower, #[trigger] number_mark(n)) {
        let n = choose|n: nat| n < 10 && text::contains(lower, #[trigger] number_mark(n));
        law_decimal_digits(n);
        let c = text::decimal(n)[0];
        assert(text::decimal(n).drop_last() =~= Seq::empty());
        assert(c as int == '0' as int + n) by {
            reveal_with_fuel(number, 2);
        }
        lemma_number_mark(n, c);
        law_contained_text_stands_between_two(lower, number_mark(n));
        assert(has_number(lower, c));
    }
    if exists|digit: char| '0' <= digit <= '9' && #[trigger] has_number(lower, digit) {
        let c = choose|digit: char| '0' <= digit <= '9' && #[trigger] has_number(lower, digit);
        let n = (c as int - '0' as int) as nat;
        lemma_number_mark(n, c);
        law_contained_text_stands_between_two(lower, number_mark(n));
        assert(text::contains(lower, number_mark(n)));
    }
}

proof fn lemma_number_mark(n: nat, c: char)
    requires
        n < 10,
        c as int == '0' as int + n,
    ensures
        number_mark(n) == mark(c),
{
    reveal_strlit("v");
    reveal_strlit(".");
    law_decimal_digits(n);
    reveal_with_fuel(number, 2);
    assert(text::decimal(n).drop_last() =~= Seq::empty());
    assert(text::decimal(n)[0] as int == '0' as int + n);
    assert(number_mark(n) =~= mark(c));
}

/// A tag names a version by its lower-case form.
pub proof fn law_tags_are_read_in_lower_case(tag: Seq<char>)
    ensures
        names_version(tag) == marks_version(text::lowercase(tag)),
{
}

/// The extension of a file name makes no difference to its base name.
pub proof fn law_extension_makes_no_difference(stem: Seq<char>, extension: Seq<char>, other: Seq<char>)
    requires
        !extension.contains('.'),
        !other.contains('.'),
    ensures
        base(named(stem, extension)) == base(named(stem, other)),
        !stem.contains('.') ==> base(named(stem, extension)) == base(stem),
{
    lemma_stem(stem, extension);
    lemma_stem(stem, other);
    stem.index_of_last_ensures('.');
}

/// What is not a version tag stays in the base name: a name without a tag, one whose first bracket
/// is not closed, and one whose first tag is another one lose nothing but white space.
pub proof fn law_other_names_stay(
    head: Seq<char>,
    inner: Seq<char>,
    tail: Seq<char>,
    extension: Seq<char>,
)
    requires
        !head.contains('('),
        !inner.contains(')'),
        !extension.contains('.'),
    ensures
        base(named(head, extension)) == text::trim(head),
        base(named(head + seq!['('] + inner, extension)) == text::trim(head + seq!['('] + inner),
        !marks_version(text::lowercase(tag(inner))) ==> base(
            named(head + tag(inner) + tail, extension),
        ) == text::trim(head + tag(inner) + tail),
{
    let open = head + seq!['('] + inner;
    let whole = head + tag(inner) + tail;
    let start = head.len() as int;
    let len = tag(inner).len() as int;
    lemma_stem(head, extension);
    lemma_stem(open, extension);
    lemma_stem(whole, extension);
    head.index_of_first_ensures('(');
    assert forall|j: int| 0 <= j < start implies open[j] != '(' && whole[j] != '(' by {
        assert(open[j] == head[j] && whole[j] == head[j]);
    }
    assert(open[start] == '(');
    assert(whole[start] == tag(inner)[0]);
    text::lemma_first_index(open, '(', start);
    text::lemma_first_index(whole, '(', start);
    let unclosed = open.skip(start);
    unclosed.index_of_first_ensures(')');
    if unclosed.contains(')') {
        let k = choose|k: int| 0 <= k < unclosed.len() && unclosed[k] == ')';
        assert(k > 0 ==> unclosed[k] == inner[k - 1]);
    }
    let rest = whole.skip(start);
    assert forall|j: int| 0 <= j < len - 1 implies rest[j] != ')' by {
        assert(rest[j] == tag(inner)[j]);
        if j > 0 {
            assert(tag(inner)[j] == inner[j - 1]);
        }
    }
    assert(rest[len - 1] == tag(inner)[len - 1]);
    text::lemma_first_index(rest, ')', len - 1);
    assert(first_tag(whole) == Some((start, len)));
    assert(whole.subrange(start, start + len) =~= tag(inner));
}

/// A version tag that is the first tag of a file's name makes no difference to its base name, so
/// two releases that differ in it alone have one base name.
pub proof fn law_version_tag_makes_no_difference(
    head: Seq<char>,
    inner: Seq<char>,
    tail: Seq<char>,
    extension: Seq<char>,
)
    requires
        !head.contains('('),
        !inner.contains(')'),
        names_version(tag(inner)),
        !extension.contains('.'),
    ensures
        base(named(head + tag(inner) + tail, extension)) == base(named(head + tail, extension)),
{
    let name = head + tag(inner) + tail;
    let start = head.len() as int;
    let len = tag(inner).len() as int;
    lemma_stem(name, extension);
    lemma_stem(head + tail, extension);
    assert forall|j: int| 0 <= j < start implies name[j] != '(' by {
        assert(name[j] == head[j]);
    }
    assert(name[start] == tag(inner)[0]);
    text::lemma_first_index(name, '(', start);
    let rest = name.skip(start);
    assert forall|j: int| 0 <= j < len - 1 implies rest[j] != ')' by {
        assert(rest[j] == tag(inner)[j]);
        if j > 0 {
            assert(tag(inner)[j] == inner[j - 1]);
        }
    }
    assert(rest[len - 1] == tag(inner)[len - 1]);
    text::lemma_first_index(rest, ')', len - 1);
    assert(first_tag(name) == Some((start, len)));
    assert(name.subrange(start, start + len) =~= tag(inner));
    assert(name.take(start) + name.skip(start + len) =~= head + tail);
}

/// A name without its version tags has none to lose.
pub proof fn law_version_tags_go_at_once(name: Seq<char>)
    ensures
        without_version_tags(without_version_tags(name)) == without_version_tags(name),
    decreases name.len(),
{
    if let Some((start, len)) = first_tag(name) {
        lemma_first_tag(name);
        if names_version(name.subrange(start, start + len)) {
            law_version_tags_go_at_once(name.take(start) + name.skip(start + len));
        }
    }
}

proof fn lemma_trim_start_keeps_tags(name: Seq<char>)
    requires
        without_version_tags(name) == name,
    ensures
        without_version_tags(text::trim_start(name)) == text::trim_start(name),
    decreases name.len(),
{
    if name.len() > 0 && text::whitespace(name[0]) {
        let tail = name.skip(1);
        lemma_first_tag(name);
        name.index_of_first_ensures('(');
        tail.index_of_first_ensures('(');
        match name.index_of_first('(') {
            Some(start) => {
                assert(start > 0);
                assert forall|j: int| 0 <= j < start - 1 implies tail[j] != '(' by {
                    assert(tail[j] == name[j + 1]);
                }
                text::lemma_first_index(tail, '(', start - 1);
                assert(tail.skip(start - 1) =~= name.skip(start));
            },
            None => {
                if tail.contains('(') {
                    let k = choose|k: int| 0 <= k < tail.len() && tail[k] == '(';
                    assert(name[k + 1] == '(');
                }
            },
        }
        if let Some((start, len)) = first_tag(name) {
            assert(first_tag(tail) == Some((start - 1, len)));
            assert(tail.subrange(start - 1, start - 1 + len) =~= name.subrange(start, start + len));
            lemma_kept_tag(name);
        }
        lemma_trim_start_keeps_tags(tail);
    }
}

proof fn lemma_kept_tag(name: Seq<char>)
    requires
        without_version_tags(name) == name,
    ensures
        first_tag(name) matches Some((start, len)) ==> !names_version(
            name.subrange(start, start + len),
        ),
{
    if let Some((start, len)) = first_tag(name) {
        lemma_first_tag(name);
        if names_version(name.subrange(start, start + len)) {
            lemma_no_longer(name.take(start) + name.skip(start + len));
        }
    }
}

proof fn lemma_no_longer(name: Seq<char>)
    ensures
        without_version_tags(name).len() <= name.len(),
    decreases name.len(),
{
    if let Some((start, len)) = first_tag(name) {
        lemma_first_tag(name);
        if names_version(name.subrange(start, start + len)) {
            lemma_no_longer(name.take(start) + name.skip(start + len));
        }
    }
}

proof fn lemma_trim_end_keeps_tags(name: Seq<char>)
    requires
        without_version_tags(name) == name,
    ensures
        without_version_tags(text::trim_end(name)) == text::trim_end(name),
    decreases name.len(),
{
    if name.len() > 0 && text::whitespace(name.last()) {
        let front = name.drop_last();
        lemma_first_tag(front);
        lemma_kept_tag(name);
        name.index_of_first_ensures('(');
        front.index_of_first_ensures('(');
        if let Some((start, len)) = first_tag(front) {
            assert forall|j: int| 0 <= j < start implies name[j] != '(' by {
                assert(name[j] == front[j]);
            }
            text::lemma_first_index(name, '(', start);
            let rest = front.skip(start);
            rest.index_of_first_ensures(')');
            assert forall|j: int| 0 <= j < len - 1 implies name.skip(start)[j] != ')' by {
                assert(name.skip(start)[j] == rest[j]);
            }
            text::lemma_first_index(name.skip(start), ')', len - 1);
            assert(first_tag(name) == Some((start, len)));
            assert(front.subrange(start, start + len) =~= name.subrange(start, start + len));
        }
        lemma_trim_end_keeps_tags(front);
    }
}

/// White space does not stand at the beginning.
spec fn no_space_ahead(name: Seq<char>) -> bool {
    name.len() == 0 || !text::whitespace(name[0])
}

proof fn lemma_trim_start(name: Seq<char>)
    ensures
        no_space_ahead(text::trim_start(name)),
    decreases name.len(),
{
    if name.len() > 0 && text::whitespace(name[0]) {
        lemma_trim_start(name.skip(1));
    }
}

proof fn lemma_trim_end(name: Seq<char>)
    requires
        no_space_ahead(name),
    ensures
        no_space_ahead(text::trim_end(name)),
        text::trim_end(text::trim_end(name)) == text::trim_end(name),
    decreases name.len(),
{
    if name.len() > 0 && text::whitespace(name.last()) {
        assert(name.drop_last().len() > 0 ==> name.drop_last()[0] == name[0]);
        lemma_trim_end(name.drop_last());
    }
}

/// A base name is its own base name, whatever extension is put behind it.
pub proof fn law_base_name_has_nothing_to_lose(filename: Seq<char>, extension: Seq<char>)
    requires
        !extension.contains('.'),
    ensures
        base(named(base(filename), extension)) == base(filename),
{
    let kept = without_version_tags(text::before_last(filename, '.'));
    lemma_stem(base(filename), extension);
    law_version_tags_go_at_once(text::before_last(filename, '.'));
    lemma_trim_start_keeps_tags(kept);
    lemma_trim_end_keeps_tags(text::trim_start(kept));
    lemma_trim_start(kept);
    lemma_trim_end(text::trim_start(kept));
}

/// The words before a name are taken off it, and nothing else, unless the name itself begins
/// with them.
pub proof fn law_words_before_a_name(words: Seq<char>, name: Seq<char>)
    requires
        words.len() > 0,
        !text::begins_with(name, words),
    ensures
        text::begins_with(words + name, words),
        text::without_prefixes(words + name, words) == name,
{
    reveal_with_fuel(text::without_prefixes, 2);
    let whole = words + name;
    assert(whole.subrange(0, words.len() as int) =~= words);
    assert(whole.skip(words.len() as int) =~= name);
}

} // verus!
