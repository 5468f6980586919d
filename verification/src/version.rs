//! The name of a game without its version: what two releases of one game have in common.
use vstd::prelude::*;

use crate::{strings, text};

verus! {

/// The mark that a version number with this leading digit leaves in a tag, such as `v1.`.
pub open spec fn number_mark(digit: nat) -> Seq<char> {
    "v"@ + text::decimal(digit) + "."@
}

/// A text in lower case names a version: it holds `v` with a digit and a full stop, `rev ` or
/// `version`.
pub open spec fn marks_version(lower: Seq<char>) -> bool {
    ||| exists|digit: nat| digit < 10 && text::contains(lower, #[trigger] number_mark(digit))
    ||| text::contains(lower, "rev "@)
    ||| text::contains(lower, "version"@)
}

/// A tag names a version.
pub open spec fn names_version(tag: Seq<char>) -> bool {
    marks_version(text::lowercase(tag))
}

/// The first tag of a name: the position of its first opening bracket, and the number of
/// characters from there through the first closing bracket behind it.
pub open spec fn first_tag(name: Seq<char>) -> Option<(int, int)> {
    match name.index_of_first('(') {
        Some(start) => match name.skip(start).index_of_first(')') {
            Some(end) => Some((start, end + 1)),
            None => None,
        },
        None => None,
    }
}

/// A name without the version tags that stand before its first other tag.
pub open spec fn without_version_tags(name: Seq<char>) -> Seq<char>
    decreases name.len(),
{
    match first_tag(name) {
        Some((start, len)) => {
            proof {
                lemma_first_tag(name);
            }
            if names_version(name.subrange(start, start + len)) {
                without_version_tags(name.take(start) + name.skip(start + len))
            } else {
                name
            }
        },
        None => name,
    }
}

/// The name that the releases of one game share: the file name without its extension, its
/// version tags and the white space at its ends.
pub open spec fn base(filename: Seq<char>) -> Seq<char> {
    text::trim(without_version_tags(text::before_last(filename, '.')))
}

/// Where the first tag stands.
pub proof fn lemma_first_tag(name: Seq<char>)
    ensures
        first_tag(name) matches Some((start, len)) ==> {
            &&& 0 <= start
            &&& 2 <= len
            &&& start + len <= name.len()
            &&& name[start] == '('
            &&& name[start + len - 1] == ')'
        },
{
    name.index_of_first_ensures('(');
    if let Some(start) = name.index_of_first('(') {
        name.skip(start).index_of_first_ensures(')');
        assert(name.skip(start)[0] == '(');
    }
}

/// Whether a text in lower case names a version.
pub fn has_version_mark(lower: &str) -> (r: bool)
    ensures
        r == marks_version(lower@),
{
    let mut digit: usize = 0;
    while digit < 10
        invariant
            digit <= 10,
            forall|d: nat| d < digit ==> !text::contains(lower@, #[trigger] number_mark(d)),
        decreases 10 - digit,
    {
        let mark = strings::concat(strings::concat("v", strings::decimal(digit).as_str()).as_str(), ".");
        assert(mark@ =~= number_mark(digit as nat));
        if strings::contains(lower, mark.as_str()) {
            return true;
        }
        digit += 1;
    }
    strings::contains(lower, "rev ") || strings::contains(lower, "version")
}

/// The name that the releases of one game share.
pub fn base_name(filename: &str) -> (r: String)
    ensures
        r@ == base(filename@),
{
    let mut result = strings::before_last(filename, '.');
    let ghost stem = result@;
    loop
        invariant_except_break
            without_version_tags(result@) == without_version_tags(stem),
        ensures
            result@ == without_version_tags(stem),
        decreases result@.len(),
    {
        let chars = strings::chars_of(result.as_str());
        let n = chars.len();
        assert(chars@.skip(0) =~= chars@);
        proof {
            lemma_first_tag(result@);
        }
        let start = match strings::find(&chars, '(', 0) {
            Some(i) => i,
            None => {
                break;
            },
        };
        let end = match strings::find(&chars, ')', start) {
            Some(i) => i,
            None => {
                break;
            },
        };
        let tag = strings::slice(result.as_str(), start, end + 1);
        assert(tag@ == result@.subrange(start as int, end + 1));
        if has_version_mark(tag.to_lowercase().as_str()) {
            let head = strings::slice(result.as_str(), 0, start);
            let tail = strings::slice(result.as_str(), end + 1, n);
            assert(head@ =~= result@.take(start as int));
            assert(tail@ =~= result@.skip(end + 1));
            result = strings::concat(head.as_str(), tail.as_str());
        } else {
            break;
        }
    }
    strings::trim(result.as_str())
}

} // verus!
