//! Chat commands: a command name followed by arguments, each either positional or given
//! by name as `key=value`, either of which may be put in double quotes.

use crate::text::{
    char_is_lowercase, char_is_whitespace, chars_of, is_lowercase, is_whitespace, lowercase_of,
    to_lowercase, views_of,
};
use std::collections::VecDeque;
use vstd::prelude::*;

verus! {

/// Where a scan over the characters of a command stops.
#[derive(Debug, Clone, Copy, PartialEq, Eq, Structural)]
pub enum Stop {
    /// At white space.
    Whitespace,
    /// At anything but white space.
    NonWhitespace,
    /// At a double quote.
    Quote,
    /// At white space or an equals sign.
    WhitespaceOrEquals,
}

impl Stop {
    /// Whether a scan stops at `c`.
    pub open spec fn at(self, c: char) -> bool {
        match self {
            Stop::Whitespace => char_is_whitespace(c),
            Stop::NonWhitespace => !char_is_whitespace(c),
            Stop::Quote => c == '"',
            Stop::WhitespaceOrEquals => char_is_whitespace(c) || c == '=',
        }
    }

    /// Whether a scan stops at `c`.
    fn stops_at(self, c: char) -> (b: bool)
        ensures
            b == self.at(c),
    {
        match self {
            Stop::Whitespace => is_whitespace(c),
            Stop::NonWhitespace => !is_whitespace(c),
            Stop::Quote => c == '"',
            Stop::WhitespaceOrEquals => is_whitespace(c) || c == '=',
        }
    }
}

/// The first position from `pos` on at which a scan stops; the end of the text where it
/// stops nowhere.
pub open spec fn scan(text: Seq<char>, pos: int, stop: Stop) -> int
    decreases text.len() - pos,
{
    if pos < 0 || pos >= text.len() {
        text.len() as int
    } else if stop.at(text[pos]) {
        pos
    } else {
        scan(text, pos + 1, stop)
    }
}

/// The position behind the character at `pos`; the end of the text where `pos` is the end.
pub open spec fn behind(text: Seq<char>, pos: int) -> int {
    if pos < text.len() {
        pos + 1
    } else {
        text.len() as int
    }
}

/// One argument of a command.
pub ghost enum Token {
    /// An argument given by position.
    Positional(Seq<char>),
    /// An argument given by name: key and value.
    Keyword(Seq<char>, Seq<char>),
}

/// The key of an argument given by name: the text before the equals sign, in lowercase.
pub open spec fn key_of(raw: Seq<char>) -> Seq<char> {
    if forall|i: int| 0 <= i < raw.len() ==> char_is_lowercase(#[trigger] raw[i]) {
        raw
    } else {
        lowercase_of(raw)
    }
}

/// The argument that starts at the first position from `pos` on that is not white space,
/// with the position behind it; `None` where only white space is left.
///
/// An argument that starts with a double quote is positional and runs to the next double
/// quote. Any other argument runs to the next white space or equals sign. Where it ends at
/// an equals sign it is the key of an argument given by name, whose value follows: up to the
/// next double quote where it starts with one, up to the next white space otherwise.
pub open spec fn next_token(text: Seq<char>, pos: int) -> Option<(Token, int)> {
    let start = scan(text, pos, Stop::NonWhitespace);
    if start >= text.len() {
        None
    } else if text[start] == '"' {
        let end = scan(text, start + 1, Stop::Quote);
        Some((Token::Positional(text.subrange(start + 1, end)), behind(text, end)))
    } else {
        let end = scan(text, start, Stop::WhitespaceOrEquals);
        if end < text.len() && text[end] == '=' {
            let key = key_of(text.subrange(start, end));
            if end + 1 < text.len() && text[end + 1] == '"' {
                let value_end = scan(text, end + 2, Stop::Quote);
                Some(
                    (
                        Token::Keyword(key, text.subrange(end + 2, value_end)),
                        behind(text, value_end),
                    ),
                )
            } else {
                let value_end = scan(text, end + 1, Stop::Whitespace);
                Some((Token::Keyword(key, text.subrange(end + 1, value_end)), value_end))
            }
        } else {
            Some((Token::Positional(text.subrange(start, end)), end))
        }
    }
}

/// The arguments from `pos` on, in the order in which they stand.
pub open spec fn tokens_from(text: Seq<char>, pos: int) -> Seq<Token>
    decreases text.len() - pos,
{
    match next_token(text, pos) {
        None => Seq::empty(),
        Some((token, next)) => if pos < next <= text.len() {
            seq![token] + tokens_from(text, next)
        } else {
            seq![token]
        },
    }
}

/// Where the command name starts: at the first character that is not white space.
pub open spec fn command_start(text: Seq<char>) -> int {
    scan(text, 0, Stop::NonWhitespace)
}

/// Where the command name ends: at the first white space behind its start.
pub open spec fn command_end(text: Seq<char>) -> int {
    scan(text, command_start(text), Stop::Whitespace)
}

/// The command name.
pub open spec fn command_of(text: Seq<char>) -> Seq<char> {
    text.subrange(command_start(text), command_end(text))
}

/// The arguments of a command.
pub open spec fn arguments_of(text: Seq<char>) -> Seq<Token> {
    tokens_from(text, command_end(text))
}

/// The positional ones among `tokens`, in order.
pub open spec fn positionals(tokens: Seq<Token>) -> Seq<Seq<char>>
    decreases tokens.len(),
{
    if tokens.len() == 0 {
        Seq::empty()
    } else {
        match tokens.last() {
            Token::Positional(value) => positionals(tokens.drop_last()).push(value),
            Token::Keyword(_, _) => positionals(tokens.drop_last()),
        }
    }
}

/// The arguments given by name among `tokens`, by key. Of two with one key the later
/// one counts.
pub open spec fn keywords(tokens: Seq<Token>) -> Map<Seq<char>, Seq<char>>
    decreases tokens.len(),
{
    if tokens.len() == 0 {
        Map::empty()
    } else {
        match tokens.last() {
            Token::Positional(_) => keywords(tokens.drop_last()),
            Token::Keyword(key, value) => keywords(tokens.drop_last()).insert(key, value),
        }
    }
}

/// A scan ends between where it starts and the end of the text, at the first character at
/// which it stops.
pub proof fn lemma_scan(text: Seq<char>, pos: int, stop: Stop)
    requires
        0 <= pos <= text.len(),
    ensures
        pos <= scan(text, pos, stop) <= text.len(),
        scan(text, pos, stop) < text.len() ==> stop.at(text[scan(text, pos, stop)]),
        forall|i: int| pos <= i < scan(text, pos, stop) ==> !stop.at(#[trigger] text[i]),
    decreases text.len() - pos,
{
    if pos < text.len() && !stop.at(text[pos]) {
        lemma_scan(text, pos + 1, stop);
    }
}

/// Every argument ends behind the position from which it was looked for, and within
/// the text.
pub proof fn lemma_next_token_advances(text: Seq<char>, pos: int)
    requires
        0 <= pos <= text.len(),
    ensures
        next_token(text, pos) matches Some((_, next)) ==> pos < next <= text.len(),
{
    lemma_scan(text, pos, Stop::NonWhitespace);
    let start = scan(text, pos, Stop::NonWhitespace);
    if start < text.len() {
        lemma_scan(text, start + 1, Stop::Quote);
        lemma_scan(text, start, Stop::WhitespaceOrEquals);
        let end = scan(text, start, Stop::WhitespaceOrEquals);
        if end < text.len() {
            lemma_scan(text, end + 1, Stop::Whitespace);
        }
        if end + 2 <= text.len() {
            lemma_scan(text, end + 2, Stop::Quote);
        }
    }
}

/// The text forms of pairs of key and value.
pub open spec fn pair_views(pairs: Seq<(String, &str)>) -> Seq<(Seq<char>, Seq<char>)> {
    pairs.map_values(|pair: (String, &str)| (pair.0@, pair.1@))
}

/// The map that a list of pairs stands for; of two pairs with one key the later one counts.
pub open spec fn pairs_map(pairs: Seq<(Seq<char>, Seq<char>)>) -> Map<Seq<char>, Seq<char>>
    decreases pairs.len(),
{
    if pairs.len() == 0 {
        Map::empty()
    } else {
        pairs_map(pairs.drop_last()).insert(pairs.last().0, pairs.last().1)
    }
}

/// No key occurs in two pairs.
pub open spec fn keys_distinct(pairs: Seq<(Seq<char>, Seq<char>)>) -> bool {
    forall|i: int, j: int|
        0 <= i < j < pairs.len() ==> (#[trigger] pairs[i]).0 != (#[trigger] pairs[j]).0
}

/// The map of a list of pairs holds exactly the keys of the list.
proof fn lemma_pairs_keys(pairs: Seq<(Seq<char>, Seq<char>)>, key: Seq<char>)
    ensures
        pairs_map(pairs).contains_key(key) <==> exists|i: int|
            0 <= i < pairs.len() && (#[trigger] pairs[i]).0 == key,
    decreases pairs.len(),
{
    if pairs.len() > 0 {
        let init = pairs.drop_last();
        lemma_pairs_keys(init, key);
        if pairs_map(pairs).contains_key(key) {
            if pairs.last().0 == key {
                assert(pairs[pairs.len() - 1].0 == key);
            } else {
                let i = choose|i: int| 0 <= i < init.len() && (#[trigger] init[i]).0 == key;
                assert(pairs[i] == init[i]);
            }
        }
        if exists|i: int| 0 <= i < pairs.len() && (#[trigger] pairs[i]).0 == key {
            let i = choose|i: int| 0 <= i < pairs.len() && (#[trigger] pairs[i]).0 == key;
            if i < pairs.len() - 1 {
                assert(init[i] == pairs[i]);
            }
        }
    }
}

/// Where no key occurs twice, the map gives each pair's key that pair's value.
proof fn lemma_pairs_value(pairs: Seq<(Seq<char>, Seq<char>)>, i: int)
    requires
        keys_distinct(pairs),
        0 <= i < pairs.len(),
    ensures
        pairs_map(pairs).contains_key(pairs[i].0),
        pairs_map(pairs)[pairs[i].0] == pairs[i].1,
    decreases pairs.len(),
{
    let init = pairs.drop_last();
    if i < pairs.len() - 1 {
        assert(keys_distinct(init)) by {
            assert forall|a: int, b: int| 0 <= a < b < init.len() implies (#[trigger] init[a]).0 != (
            #[trigger] init[b]).0 by {
                assert(init[a] == pairs[a] && init[b] == pairs[b]);
            }
        }
        lemma_pairs_value(init, i);
        assert(init[i] == pairs[i]);
        assert(pairs[i].0 != pairs[pairs.len() - 1].0);
    }
}

/// The map gives a key the value of the last pair that holds the key.
proof fn lemma_pairs_last(pairs: Seq<(Seq<char>, Seq<char>)>, i: int)
    requires
        0 <= i < pairs.len(),
        forall|j: int| i < j < pairs.len() ==> (#[trigger] pairs[j]).0 != pairs[i].0,
    ensures
        pairs_map(pairs).contains_key(pairs[i].0),
        pairs_map(pairs)[pairs[i].0] == pairs[i].1,
    decreases pairs.len(),
{
    if i < pairs.len() - 1 {
        let init = pairs.drop_last();
        assert(init[i] == pairs[i]);
        assert(pairs[pairs.len() - 1].0 != pairs[i].0);
        assert forall|j: int| i < j < init.len() implies (#[trigger] init[j]).0 != init[i].0 by {
            assert(init[j] == pairs[j]);
        }
        lemma_pairs_last(init, i);
    }
}

/// A command taken apart: its name, its positional arguments in order, and its arguments
/// given by name, each key once.
#[derive(Debug, Clone)]
pub struct ParsedCommand<'a> {
    pub command: &'a str,
    pub args: VecDeque<&'a str>,
    pub kwargs: Vec<(String, &'a str)>,
}

impl<'a> ParsedCommand<'a> {
    /// The arguments given by name, by key.
    pub open spec fn kwargs_map(self) -> Map<Seq<char>, Seq<char>> {
        pairs_map(pair_views(self.kwargs@))
    }

    /// No key stands twice among the arguments given by name. This holds of every
    /// command that `parse` hands out.
    pub open spec fn wf(self) -> bool {
        keys_distinct(pair_views(self.kwargs@))
    }

    /// The value of the argument given by the name `key`, if there is one.
    pub fn kwarg(&self, key: &str) -> (value: Option<&'a str>)
        ensures
            value is Some <==> self.kwargs_map().contains_key(key@),
            value matches Some(v) ==> v@ == self.kwargs_map()[key@],
    {
        let wanted = key.to_owned();
        let ghost pairs = pair_views(self.kwargs@);
        let mut i: usize = self.kwargs.len();
        while i > 0
            invariant
                i <= self.kwargs@.len(),
                wanted@ == key@,
                pairs == pair_views(self.kwargs@),
                forall|j: int| i <= j < pairs.len() ==> (#[trigger] pairs[j]).0 != key@,
            decreases i,
        {
            i -= 1;
            if self.kwargs[i].0 == wanted {
                proof {
                    assert(pairs[i as int] == (self.kwargs@[i as int].0@, self.kwargs@[i as int].1@));
                    lemma_pairs_last(pairs, i as int);
                }
                return Some(self.kwargs[i].1);
            }
            proof {
                assert(pairs[i as int].0 != key@);
            }
        }
        proof {
            lemma_pairs_keys(pairs, key@);
        }
        None
    }

    /// The value of the argument given by the name `key`; where there is none, the first
    /// positional argument that is left, which is thereby used up.
    pub fn get_from_kwargs_or_args(&mut self, key: &str) -> (value: Option<&'a str>)
        ensures
            final(self).command == old(self).command,
            final(self).kwargs == old(self).kwargs,
            old(self).kwargs_map().contains_key(key@) ==> final(self).args == old(self).args
                && value is Some && value->0@ == old(self).kwargs_map()[key@],
            !old(self).kwargs_map().contains_key(key@) && old(self).args@.len() > 0 ==> value
                == Some(old(self).args@[0]) && final(self).args@ == old(self).args@.drop_first(),
            !old(self).kwargs_map().contains_key(key@) && old(self).args@.len() == 0
                ==> value is None && final(self).args@ == old(self).args@,
    {
        match self.kwarg(key) {
            Some(value) => Some(value),
            None => {
                let first = self.args.pop_front();
                proof {
                    if old(self).args@.len() > 0 {
                        assert(self.args@ =~= old(self).args@.drop_first());
                    }
                }
                first
            },
        }
    }
}

/// The first position from `pos` on at which a scan stops.
fn scan_to(chars: &Vec<char>, pos: usize, stop: Stop) -> (end: usize)
    requires
        pos <= chars@.len(),
    ensures
        end == scan(chars@, pos as int, stop),
        pos <= end <= chars@.len(),
{
    let mut end: usize = pos;
    while end < chars.len() && !stop.stops_at(chars[end])
        invariant
            pos <= end <= chars@.len(),
            scan(chars@, pos as int, stop) == scan(chars@, end as int, stop),
        decreases chars@.len() - end,
    {
        end += 1;
    }
    end
}

/// The position behind the character at `pos`.
fn behind_of(chars: &Vec<char>, pos: usize) -> (next: usize)
    requires
        pos <= chars@.len(),
    ensures
        next == behind(chars@, pos as int),
        pos <= next <= chars@.len(),
{
    if pos < chars.len() {
        pos + 1
    } else {
        pos
    }
}

/// The key of an argument given by name.
fn key_from(raw: &str) -> (key: String)
    ensures
        key@ == key_of(raw@),
{
    let chars = chars_of(raw);
    let mut i: usize = 0;
    while i < chars.len()
        invariant
            i <= chars@.len(),
            chars@ == raw@,
            forall|j: int| 0 <= j < i ==> char_is_lowercase(#[trigger] raw@[j]),
        decreases chars@.len() - i,
    {
        if !is_lowercase(chars[i]) {
            assert(!char_is_lowercase(raw@[i as int]));
            return to_lowercase(raw);
        }
        i += 1;
    }
    raw.to_owned()
}

/// One argument of a command, as slices of the command's text.
enum Piece<'a> {
    Positional(&'a str),
    Keyword(String, &'a str),
}

impl<'a> Piece<'a> {
    spec fn token(self) -> Token {
        match self {
            Piece::Positional(value) => Token::Positional(value@),
            Piece::Keyword(key, value) => Token::Keyword(key@, value@),
        }
    }
}

/// The argument that starts at the first position from `pos` on that is not white space,
/// with the position behind it.
fn read_token<'a>(cmd: &'a str, chars: &Vec<char>, pos: usize) -> (read: Option<(Piece<'a>, usize)>)
    requires
        chars@ == cmd@,
        pos <= chars@.len(),
    ensures
        read is Some <==> next_token(cmd@, pos as int) is Some,
        read matches Some((piece, next)) ==> next_token(cmd@, pos as int) == Some(
            (piece.token(), next as int),
        ) && pos < next <= chars@.len(),
{
    proof {
        lemma_next_token_advances(cmd@, pos as int);
    }
    let start = scan_to(chars, pos, Stop::NonWhitespace);
    if start >= chars.len() {
        return None;
    }
    if chars[start] == '"' {
        let end = scan_to(chars, start + 1, Stop::Quote);
        let value = cmd.substring_char(start + 1, end);
        return Some((Piece::Positional(value), behind_of(chars, end)));
    }
    let end = scan_to(chars, start, Stop::WhitespaceOrEquals);
    if end < chars.len() && chars[end] == '=' {
        let key = key_from(cmd.substring_char(start, end));
        if end + 1 < chars.len() && chars[end + 1] == '"' {
            let value_end = scan_to(chars, end + 2, Stop::Quote);
            let value = cmd.substring_char(end + 2, value_end);
            Some((Piece::Keyword(key, value), behind_of(chars, value_end)))
        } else {
            let value_end = scan_to(chars, end + 1, Stop::Whitespace);
            let value = cmd.substring_char(end + 1, value_end);
            Some((Piece::Keyword(key, value), value_end))
        }
    } else {
        Some((Piece::Positional(cmd.substring_char(start, end)), end))
    }
}

/// Gives `key` the value `value`, in place of the value it had if it had one.
fn insert_kwarg<'a>(kwargs: &mut Vec<(String, &'a str)>, key: String, value: &'a str)
    requires
        keys_distinct(pair_views(old(kwargs)@)),
    ensures
        keys_distinct(pair_views(final(kwargs)@)),
        pairs_map(pair_views(final(kwargs)@)) == pairs_map(pair_views(old(kwargs)@)).insert(
            key@,
            value@,
        ),
{
    let ghost before = pair_views(kwargs@);
    let mut i: usize = 0;
    while i < kwargs.len() && !(kwargs[i].0 == key)
        invariant
            i <= kwargs@.len(),
            pair_views(kwargs@) == before,
            forall|j: int| 0 <= j < i ==> (#[trigger] before[j]).0 != key@,
        decreases kwargs@.len() - i,
    {
        proof {
            assert(before[i as int].0 == kwargs@[i as int].0@);
        }
        i += 1;
    }
    let ghost found = i < kwargs@.len();
    proof {
        if found {
            assert(before[i as int].0 == kwargs@[i as int].0@);
        }
    }
    if i < kwargs.len() {
        kwargs.set(i, (key, value));
    } else {
        kwargs.push((key, value));
    }
    proof {
        let after = pair_views(kwargs@);
        let want = pairs_map(before).insert(key@, value@);
        assert(after.len() == if found { before.len() } else { before.len() + 1 });
        assert(after[i as int] == (key@, value@));
        assert forall|j: int| 0 <= j < after.len() && j != i implies #[trigger] after[j]
            == before[j] by {}
        assert(keys_distinct(after)) by {
            assert forall|a: int, b: int| 0 <= a < b < after.len() implies (#[trigger] after[a]).0 != (
            #[trigger] after[b]).0 by {
                if a != i && b != i {
                    assert(after[a] == before[a] && after[b] == before[b]);
                } else if a == i {
                    assert(after[b] == before[b]);
                    assert(before[i as int].0 != before[b].0);
                } else {
                    assert(after[a] == before[a]);
                    if found {
                        assert(before[a].0 != before[i as int].0);
                    }
                }
            }
        }
        assert forall|k: Seq<char>| pairs_map(after).contains_key(k) <==> want.contains_key(k) by {
            lemma_pairs_keys(after, k);
            lemma_pairs_keys(before, k);
            if pairs_map(after).contains_key(k) {
                let j = choose|j: int| 0 <= j < after.len() && (#[trigger] after[j]).0 == k;
                if j != i {
                    assert(before[j] == after[j]);
                }
            }
            if want.contains_key(k) && k != key@ {
                let j = choose|j: int| 0 <= j < before.len() && (#[trigger] before[j]).0 == k;
                assert(after[j] == before[j]);
            }
            if k == key@ {
                assert(after[i as int].0 == k);
            }
        }
        assert forall|k: Seq<char>| pairs_map(after).contains_key(k) implies pairs_map(after)[k]
            == want[k] by {
            lemma_pairs_keys(after, k);
            let j = choose|j: int| 0 <= j < after.len() && (#[trigger] after[j]).0 == k;
            lemma_pairs_value(after, j);
            if j != i {
                assert(before[j] == after[j]);
                lemma_pairs_value(before, j);
                if k == key@ {
                    assert(after[i as int].0 == after[j].0);
                }
            }
        }
        assert(pairs_map(after) =~= want);
    }
}

/// Takes a command apart: the name is the first run of characters that are not white
/// space, the arguments follow, separated by white space.
pub fn parse<'a>(cmd: &'a str) -> (parsed: ParsedCommand<'a>)
    ensures
        parsed.command@ == command_of(cmd@),
        views_of(parsed.args@) == positionals(arguments_of(cmd@)),
        parsed.kwargs_map() == keywords(arguments_of(cmd@)),
        parsed.wf(),
{
    let chars = chars_of(cmd);
    let start = scan_to(&chars, 0, Stop::NonWhitespace);
    let end = scan_to(&chars, start, Stop::Whitespace);
    let command = cmd.substring_char(start, end);
    let mut args: VecDeque<&'a str> = VecDeque::new();
    let mut kwargs: Vec<(String, &'a str)> = Vec::new();
    let ghost mut done: Seq<Token> = Seq::empty();
    let mut pos: usize = end;
    proof {
        assert(views_of(args@) =~= positionals(done));
        assert(pair_views(kwargs@) =~= Seq::empty());
    }
    loop
        invariant
            chars@ == cmd@,
            pos <= chars@.len(),
            arguments_of(cmd@) == done + tokens_from(cmd@, pos as int),
            views_of(args@) == positionals(done),
            keys_distinct(pair_views(kwargs@)),
            pairs_map(pair_views(kwargs@)) == keywords(done),
        ensures
            arguments_of(cmd@) == done,
            views_of(args@) == positionals(done),
            keys_distinct(pair_views(kwargs@)),
            pairs_map(pair_views(kwargs@)) == keywords(done),
        decreases chars@.len() - pos,
    {
        match read_token(cmd, &chars, pos) {
            None => {
                proof {
                    assert(tokens_from(cmd@, pos as int) =~= Seq::empty());
                    assert(done + tokens_from(cmd@, pos as int) =~= done);
                }
                break ;
            },
            Some((piece, next)) => {
                proof {
                    let extended = done.push(piece.token());
                    assert(extended.drop_last() =~= done);
                    assert(done + (seq![piece.token()] + tokens_from(cmd@, next as int))
                        =~= extended + tokens_from(cmd@, next as int));
                }
                match piece {
                    Piece::Positional(value) => {
                        let ghost before = args@;
                        args.push_back(value);
                        proof {
                            assert(views_of(args@) =~= views_of(before).push(value@));
                        }
                    },
                    Piece::Keyword(key, value) => {
                        insert_kwarg(&mut kwargs, key, value);
                    },
                }
                proof {
                    done = done.push(piece.token());
                }
                pos = next;
            },
        }
    }
    ParsedCommand { command, args, kwargs }
}

} // verus!
