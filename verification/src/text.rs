//! Characters and texts as the standard library classes and compares them.

use vstd::prelude::*;

verus! {

/// Whether `c` is white space, as the Unicode property `White_Space` has it.
pub uninterp spec fn char_is_whitespace(c: char) -> bool;

/// Whether `c` is a lowercase character, as the Unicode property `Lowercase` has it.
pub uninterp spec fn char_is_lowercase(c: char) -> bool;

/// The lowercase form of a text, as Unicode defines it.
pub uninterp spec fn lowercase_of(text: Seq<char>) -> Seq<char>;

/// `char::is_whitespace` of the standard library.
#[verifier::external_body]
pub(crate) fn is_whitespace(c: char) -> (b: bool)
    ensures
        b == char_is_whitespace(c),
{
    c.is_whitespace()
}

/// `char::is_lowercase` of the standard library.
#[verifier::external_body]
pub(crate) fn is_lowercase(c: char) -> (b: bool)
    ensures
        b == char_is_lowercase(c),
{
    c.is_lowercase()
}

/// `str::to_lowercase` of the standard library.
#[verifier::external_body]
pub(crate) fn to_lowercase(text: &str) -> (lower: String)
    ensures
        lower@ == lowercase_of(text@),
{
    text.to_lowercase()
}

/// The characters of a text.
pub fn chars_of(text: &str) -> (chars: Vec<char>)
    ensures
        chars@ == text@,
{
    let mut chars: Vec<char> = Vec::new();
    for c in it: text.chars()
        invariant
            it.seq() == text@,
            chars@ == text@.take(it.index()),
    {
        chars.push(c);
        proof {
            assert(chars@ =~= text@.take(it.index() + 1));
        }
    }
    proof {
        assert(chars@ =~= text@);
    }
    chars
}

/// Whether two texts are the same.
pub fn str_eq(a: &str, b: &str) -> (same: bool)
    ensures
        same == (a@ == b@),
{
    let left = a.to_owned();
    let right = b.to_owned();
    left == right
}

/// The first position from `pos` on at which white space stands (`at_space` true) or
/// something else stands (`at_space` false); the end of the text where there is none.
pub open spec fn next_boundary(text: Seq<char>, pos: int, at_space: bool) -> int
    decreases text.len() - pos,
{
    if pos < 0 || pos >= text.len() {
        text.len() as int
    } else if char_is_whitespace(text[pos]) == at_space {
        pos
    } else {
        next_boundary(text, pos + 1, at_space)
    }
}

/// The words of `text` from `pos` on: the runs of characters that are not white space.
pub open spec fn words_from(text: Seq<char>, pos: int) -> Seq<Seq<char>>
    decreases text.len() - pos,
{
    let start = next_boundary(text, pos, false);
    let end = next_boundary(text, start, true);
    if start >= text.len() {
        Seq::empty()
    } else if pos < end <= text.len() {
        seq![text.subrange(start, end)] + words_from(text, end)
    } else {
        seq![text.subrange(start, end)]
    }
}

/// The words of `text`.
pub open spec fn words(text: Seq<char>) -> Seq<Seq<char>> {
    words_from(text, 0)
}

/// A boundary lies between where it is looked for and the end of the text, at the first
/// character of its kind.
pub proof fn lemma_next_boundary(text: Seq<char>, pos: int, at_space: bool)
    requires
        0 <= pos <= text.len(),
    ensures
        pos <= next_boundary(text, pos, at_space) <= text.len(),
        next_boundary(text, pos, at_space) < text.len() ==> char_is_whitespace(
            text[next_boundary(text, pos, at_space)],
        ) == at_space,
        forall|i: int|
            pos <= i < next_boundary(text, pos, at_space) ==> char_is_whitespace(#[trigger] text[i])
                != at_space,
    decreases text.len() - pos,
{
    if pos < text.len() && char_is_whitespace(text[pos]) != at_space {
        lemma_next_boundary(text, pos + 1, at_space);
    }
}

/// The first position from `pos` on at which white space stands, or something else.
fn boundary(chars: &Vec<char>, pos: usize, at_space: bool) -> (end: usize)
    requires
        pos <= chars@.len(),
    ensures
        end == next_boundary(chars@, pos as int, at_space),
        pos <= end <= chars@.len(),
{
    let mut end: usize = pos;
    while end < chars.len() && is_whitespace(chars[end]) != at_space
        invariant
            pos <= end <= chars@.len(),
            next_boundary(chars@, pos as int, at_space) == next_boundary(
                chars@,
                end as int,
                at_space,
            ),
        decreases chars@.len() - end,
    {
        end += 1;
    }
    end
}

/// The texts of the items of a list.
pub open spec fn views_of(items: Seq<&str>) -> Seq<Seq<char>> {
    items.map_values(|item: &str| item@)
}

/// The words of `text`: the runs of characters that are not white space, in order.
pub fn split_words<'a>(text: &'a str) -> (list: Vec<&'a str>)
    ensures
        views_of(list@) == words(text@),
{
    let chars = chars_of(text);
    let mut list: Vec<&'a str> = Vec::new();
    let mut pos: usize = 0;
    proof {
        assert(views_of(list@) =~= Seq::empty());
    }
    loop
        invariant
            chars@ == text@,
            pos <= chars@.len(),
            words(text@) == views_of(list@) + words_from(text@, pos as int),
        ensures
            words(text@) == views_of(list@),
        decreases chars@.len() - pos,
    {
        let start = boundary(&chars, pos, false);
        if start >= chars.len() {
            proof {
                assert(views_of(list@) + words_from(text@, pos as int) =~= views_of(list@));
            }
            break ;
        }
        let end = boundary(&chars, start, true);
        proof {
            lemma_next_boundary(text@, pos as int, false);
            lemma_next_boundary(text@, start as int, true);
            assert(!char_is_whitespace(text@[start as int]));
            assert(start < end);
        }
        let word = text.substring_char(start, end);
        let ghost before = list@;
        list.push(word);
        proof {
            assert(views_of(list@) =~= views_of(before).push(word@));
            assert(views_of(before) + (seq![word@] + words_from(text@, end as int)) =~= views_of(
                list@,
            ) + words_from(text@, end as int));
        }
        pos = end;
    }
    list
}

/// Where the part of `text` behind the last `mark` starts: behind the last `mark`, or at
/// the start of a text without one.
pub open spec fn start_after_last(text: Seq<char>, mark: char) -> int
    decreases text.len(),
{
    if text.len() == 0 {
        0
    } else if text.last() == mark {
        text.len() as int
    } else {
        start_after_last(text.drop_last(), mark)
    }
}

/// The part of `text` behind the last `mark`; all of a text without one.
pub open spec fn after_last_spec(text: Seq<char>, mark: char) -> Seq<char> {
    text.subrange(start_after_last(text, mark), text.len() as int)
}

/// Behind the position of a `mark` that no `mark` follows, the rest of the text starts.
proof fn lemma_start_after_last(text: Seq<char>, mark: char, cut: int)
    requires
        0 <= cut <= text.len(),
        cut > 0 ==> text[cut - 1] == mark,
        forall|i: int| cut <= i < text.len() ==> #[trigger] text[i] != mark,
    ensures
        start_after_last(text, mark) == cut,
    decreases text.len(),
{
    if text.len() > 0 && cut < text.len() {
        let init = text.drop_last();
        assert(text[text.len() - 1] != mark);
        assert forall|i: int| cut <= i < init.len() implies #[trigger] init[i] != mark by {
            assert(init[i] == text[i]);
        }
        if cut > 0 {
            assert(init[cut - 1] == text[cut - 1]);
        }
        lemma_start_after_last(init, mark, cut);
    }
}

/// The part of `text` behind the last `mark`; all of a text without one.
pub fn after_last<'a>(text: &'a str, mark: char) -> (rest: &'a str)
    ensures
        rest@ == after_last_spec(text@, mark),
{
    let chars = chars_of(text);
    let mut cut: usize = chars.len();
    while cut > 0 && chars[cut - 1] != mark
        invariant
            cut <= chars@.len(),
            chars@ == text@,
            forall|i: int| cut <= i < chars@.len() ==> #[trigger] text@[i] != mark,
        decreases cut,
    {
        cut -= 1;
    }
    proof {
        lemma_start_after_last(text@, mark, cut as int);
    }
    text.substring_char(cut, chars.len())
}

} // verus!
