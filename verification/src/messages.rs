//! The texts of the notices that the bot sends.

use crate::day::AocDay;
use crate::fmt::{decimal, fmt_rank, push_decimal, push_signed_decimal, rank_text, signed_decimal};
use vstd::prelude::*;
use vstd::string::StringExecFns;

verus! {

/// The notice that a member has solved a part of a day's puzzle.
pub open spec fn solve_message_spec(
    name: Seq<char>,
    part2: bool,
    day: AocDay,
    at: Seq<char>,
    rank: nat,
) -> Seq<char> {
    name + " has solved part "@ + (if part2 {
        "two"@
    } else {
        "one"@
    }) + " of [**Advent of Code "@ + signed_decimal(day.year as int) + " Day "@ + decimal(
        day.day as nat,
    ) + "**]("@ + day.url_spec() + ") at "@ + at + " ("@ + rank_text(rank) + ")"@
}

/// The notice that `name` has solved a part of a day's puzzle at `at` as the member of
/// rank `rank` to do so: `<name> has solved part one of [**Advent of Code <year> Day
/// <day>**](<url>) at <at> (<rank>)`.
pub fn solve_message(name: &str, part2: bool, day: AocDay, at: &str, rank: usize) -> (text: String)
    ensures
        text@ == solve_message_spec(name@, part2, day, at@, rank as nat),
{
    let url = day.url();
    let place = fmt_rank(rank);
    let mut text = String::new();
    text.append(name);
    text.append(" has solved part ");
    text.append(if part2 { "two" } else { "one" });
    text.append(" of [**Advent of Code ");
    push_signed_decimal(&mut text, day.year as i64);
    text.append(" Day ");
    push_decimal(&mut text, day.day as u64);
    text.append("**](");
    text.append(url.as_str());
    text.append(") at ");
    text.append(at);
    text.append(" (");
    text.append(place.as_str());
    text.append(")");
    assert(text@ =~= solve_message_spec(name@, part2, day, at@, rank as nat));
    text
}

/// The notice that a member has joined or left the private leaderboard.
pub open spec fn membership_message_spec(name: Seq<char>, joined: bool) -> Seq<char> {
    name + " has "@ + (if joined {
        "joined"@
    } else {
        "left"@
    }) + " the private leaderboard"@
}

/// The notice that `name` has joined or left: `<name> has joined the private leaderboard`.
pub fn membership_message(name: &str, joined: bool) -> (text: String)
    ensures
        text@ == membership_message_spec(name@, joined),
{
    let mut text = String::new();
    text.append(name);
    text.append(" has ");
    text.append(if joined { "joined" } else { "left" });
    text.append(" the private leaderboard");
    assert(text@ =~= membership_message_spec(name@, joined));
    text
}

/// The announcement that the puzzles of a day can be solved.
pub open spec fn unlock_message_spec(day: AocDay, link_prefix: Seq<char>) -> Seq<char> {
    "✨ The puzzles of **Advent of Code "@ + signed_decimal(day.year as int) + " Day "@ + decimal(
        day.day as nat,
    ) + "** can now be solved at ["@ + day.url_spec() + "]("@ + link_prefix + day.url_spec()
        + ") ✨ <!-- 🎉 -->"@
}

/// The announcement that the puzzles of `day` can be solved, with a link to them that
/// starts with `link_prefix`.
pub fn unlock_message(day: AocDay, link_prefix: &str) -> (text: String)
    ensures
        text@ == unlock_message_spec(day, link_prefix@),
{
    let url = day.url();
    let mut text = String::new();
    text.append("✨ The puzzles of **Advent of Code ");
    push_signed_decimal(&mut text, day.year as i64);
    text.append(" Day ");
    push_decimal(&mut text, day.day as u64);
    text.append("** can now be solved at [");
    text.append(url.as_str());
    text.append("](");
    text.append(link_prefix);
    text.append(url.as_str());
    text.append(") ✨ <!-- 🎉 -->");
    assert(text@ =~= unlock_message_spec(day, link_prefix@));
    text
}

/// What the user is told where something went wrong: `❌ Error: <reason>`.
pub fn error_text(reason: &str) -> (text: String)
    ensures
        text@ == "❌ Error: "@ + reason@,
{
    let mut text = String::new();
    text.append("❌ Error: ");
    text.append(reason);
    assert(text@ =~= "❌ Error: "@ + reason@);
    text
}

} // verus!
