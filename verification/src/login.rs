//! What the operator types in to log the bot in.

use crate::text::{after_last, after_last_spec, split_words, views_of, words};
use vstd::prelude::*;

verus! {

/// What the bot logs in with.
#[derive(Debug, Clone, PartialEq, Eq)]
pub enum Credentials {
    /// A login token.
    Token(String),
    /// The name of the account and its password.
    Password { username: String, password: String },
}

/// What a line of input says to log in with: a single word is a login token, or the
/// address that ends in one behind its last equals sign; two words are a user name and
/// a password.
pub open spec fn credentials_spec(line: Seq<char>) -> Option<(Seq<char>, Option<Seq<char>>)> {
    let given = words(line);
    if given.len() == 1 {
        Some((after_last_spec(given[0], '='), None))
    } else if given.len() == 2 {
        Some((given[0], Some(given[1])))
    } else {
        None
    }
}

/// What a line of input says to log in with; `None` for an empty line and for a line of
/// more than two words.
pub fn parse_credentials(line: &str) -> (credentials: Option<Credentials>)
    ensures
        match credentials_spec(line@) {
            Some((token, None)) => credentials matches Some(Credentials::Token(t)) && t@ == token,
            Some((name, Some(secret))) => credentials matches Some(
                Credentials::Password { username, password },
            ) && username@ == name && password@ == secret,
            None => credentials is None,
        },
{
    let given = split_words(line);
    proof {
        assert(views_of(given@).len() == given@.len());
    }
    if given.len() == 1 {
        proof {
            assert(views_of(given@)[0] == given@[0]@);
        }
        Some(Credentials::Token(after_last(given[0], '=').to_owned()))
    } else if given.len() == 2 {
        proof {
            assert(views_of(given@)[0] == given@[0]@);
            assert(views_of(given@)[1] == given@[1]@);
        }
        Some(Credentials::Password { username: given[0].to_owned(), password: given[1].to_owned() })
    } else {
        None
    }
}

} // verus!
