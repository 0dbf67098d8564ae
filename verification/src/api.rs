//! What is sent to the event's site and what is read out of its answers.

use crate::fmt::{decimal, parse_u64, push_decimal, push_signed_decimal, signed_decimal, u64_value};
use crate::models::AocWhoami;
use crate::patterns::{captures, group_views, regex_captures};
use vstd::prelude::*;
use vstd::string::StringExecFns;

verus! {

/// The page that shows the invite code of the account's private leaderboard.
pub const PRIVATE_LEADERBOARD_URL: &'static str = "https://adventofcode.com/leaderboard/private";

/// Where the page shows the invite code: the code is the account's id, a hyphen, and
/// digits and lowercase letters. Group 1 is the code, group 2 the id.
pub const INVITE_CODE_PATTERN: &'static str = r"<code>((\d+)-[\da-z]+)</code>";

/// Why the account could not be read from the page.
#[derive(Debug, Clone, Copy, PartialEq, Eq, Structural)]
pub enum WhoamiError {
    /// The page shows no invite code.
    InviteCodeNotFound,
    /// The id in front of the invite code is not a number of 64 bits.
    InvalidUserId,
}

/// The invite code and the text of the account's id, out of the capture groups of the
/// invite code pattern.
pub open spec fn invite_code_groups(found: Option<Seq<Option<Seq<char>>>>) -> Option<
    (Seq<char>, Seq<char>),
> {
    match found {
        Some(groups) => if groups.len() >= 3 && groups[1] is Some && groups[2] is Some {
            Some((groups[1]->0, groups[2]->0))
        } else {
            None
        },
        None => None,
    }
}

/// The account that the capture groups of the invite code pattern describe: invite code
/// and id, or why there is none.
pub open spec fn whoami_spec(found: Option<Seq<Option<Seq<char>>>>) -> Result<
    (u64, Seq<char>),
    WhoamiError,
> {
    match invite_code_groups(found) {
        Some((code, id)) => match u64_value(id) {
            Some(user_id) => Ok((user_id, code)),
            None => Err(WhoamiError::InvalidUserId),
        },
        None => Err(WhoamiError::InviteCodeNotFound),
    }
}

/// The view of capture groups that a search has handed out.
pub open spec fn found_view(found: Option<Vec<Option<String>>>) -> Option<Seq<Option<Seq<char>>>> {
    match found {
        Some(groups) => Some(group_views(groups@)),
        None => None,
    }
}

/// The account that the capture groups of the invite code pattern describe.
pub fn whoami_from_captures(found: Option<Vec<Option<String>>>) -> (whoami: Result<
    AocWhoami,
    WhoamiError,
>)
    ensures
        match whoami_spec(found_view(found)) {
            Ok((user_id, code)) => whoami matches Ok(w) && w.user_id == user_id && w.invite_code@
                == code,
            Err(error) => whoami == Err::<AocWhoami, WhoamiError>(error),
        },
{
    match found {
        Some(groups) => {
            if groups.len() < 3 {
                return Err(WhoamiError::InviteCodeNotFound);
            }
            proof {
                assert(group_views(groups@)[1] == match groups@[1] {
                    Some(text) => Some(text@),
                    None => None,
                });
                assert(group_views(groups@)[2] == match groups@[2] {
                    Some(text) => Some(text@),
                    None => None,
                });
            }
            match (&groups[1], &groups[2]) {
                (Some(code), Some(id)) => match parse_u64(id.as_str()) {
                    Some(user_id) => Ok(AocWhoami { user_id, invite_code: code.clone() }),
                    None => Err(WhoamiError::InvalidUserId),
                },
                _ => Err(WhoamiError::InviteCodeNotFound),
            }
        },
        None => Err(WhoamiError::InviteCodeNotFound),
    }
}

/// The account that the page of the private leaderboard belongs to: the first invite code
/// that the page shows, and the id in front of it.
pub fn parse_whoami(page: &str) -> (whoami: Result<AocWhoami, WhoamiError>)
    ensures
        match whoami_spec(regex_captures(INVITE_CODE_PATTERN@, page@)) {
            Ok((user_id, code)) => whoami matches Ok(w) && w.user_id == user_id && w.invite_code@
                == code,
            Err(error) => whoami == Err::<AocWhoami, WhoamiError>(error),
        },
{
    whoami_from_captures(captures(INVITE_CODE_PATTERN, page))
}

/// The address of a private leaderboard as data.
pub open spec fn leaderboard_url_spec(year: i32, user_id: u64) -> Seq<char> {
    "https://adventofcode.com/"@ + signed_decimal(year as int) + "/leaderboard/private/view/"@
        + decimal(user_id as nat) + ".json"@
}

/// The address of the private leaderboard of `user_id` for `year`, as data:
/// `https://adventofcode.com/<year>/leaderboard/private/view/<user_id>.json`.
pub fn leaderboard_url(year: i32, user_id: u64) -> (url: String)
    ensures
        url@ == leaderboard_url_spec(year, user_id),
{
    let mut url = String::new();
    url.append("https://adventofcode.com/");
    push_signed_decimal(&mut url, year as i64);
    url.append("/leaderboard/private/view/");
    push_decimal(&mut url, user_id);
    url.append(".json");
    assert(url@ =~= leaderboard_url_spec(year, user_id));
    url
}

/// The cookie that carries the session to the site: `session=<session>`.
pub fn session_cookie(session: &str) -> (cookie: String)
    ensures
        cookie@ == "session="@ + session@,
{
    let mut cookie = String::new();
    cookie.append("session=");
    cookie.append(session);
    assert(cookie@ =~= "session="@ + session@);
    cookie
}

} // verus!
