//! The people the bot knows: which leaderboard member is which chat account, and where
//! their solutions are.

use crate::fmt::{parse_u64, u64_value};
use crate::listing::{entries, is_listing};
use crate::models::{PrivateLeaderboardMember, PrivateLeaderboardMembers};
use crate::text::{lowercase_of, str_eq, to_lowercase};
use vstd::prelude::*;

verus! {

/// A person as the configuration lists them: their id on the leaderboard, their chat
/// account, and the address of their solutions, as far as each is known.
#[derive(Debug, Clone, PartialEq, Eq)]
pub struct User {
    pub aoc: Option<u64>,
    pub matrix: Option<String>,
    pub repo: Option<String>,
}

/// Users with the leaderboard id `id`.
pub open spec fn has_aoc(id: u64) -> spec_fn(User) -> bool {
    |user: User| user.aoc == Some(id)
}

/// Users with the chat account `id`.
pub open spec fn has_matrix(id: Seq<char>) -> spec_fn(User) -> bool {
    |user: User| user.matrix matches Some(account) && account@ == id
}

/// The last place in `users` at which a user meets `pred`.
pub open spec fn last_where(users: Seq<User>, pred: spec_fn(User) -> bool) -> Option<int>
    decreases users.len(),
{
    if users.len() == 0 {
        None
    } else if pred(users.last()) {
        Some(users.len() - 1)
    } else {
        last_where(users.drop_last(), pred)
    }
}

/// The last of `users` that meets `pred`.
pub open spec fn last_user_where(users: Seq<User>, pred: spec_fn(User) -> bool) -> Option<User> {
    match last_where(users, pred) {
        Some(i) => Some(users[i]),
        None => None,
    }
}

/// A user behind which no user meets `pred` is the last one that does, if it does itself.
proof fn lemma_last_where(users: Seq<User>, pred: spec_fn(User) -> bool, i: int)
    requires
        0 <= i < users.len(),
        pred(users[i]),
        forall|j: int| i < j < users.len() ==> !pred(#[trigger] users[j]),
    ensures
        last_where(users, pred) == Some(i),
    decreases users.len(),
{
    if i < users.len() - 1 {
        let init = users.drop_last();
        assert(!pred(users[users.len() - 1]));
        assert(init[i] == users[i]);
        assert forall|j: int| i < j < init.len() implies !pred(#[trigger] init[j]) by {
            assert(init[j] == users[j]);
        }
        lemma_last_where(init, pred, i);
    }
}

/// Where no user meets `pred`, there is no last one.
proof fn lemma_last_where_none(users: Seq<User>, pred: spec_fn(User) -> bool)
    requires
        forall|j: int| 0 <= j < users.len() ==> !pred(#[trigger] users[j]),
    ensures
        last_where(users, pred) is None,
    decreases users.len(),
{
    if users.len() > 0 {
        let init = users.drop_last();
        assert(!pred(users[users.len() - 1]));
        assert forall|j: int| 0 <= j < init.len() implies !pred(#[trigger] init[j]) by {
            assert(init[j] == users[j]);
        }
        lemma_last_where_none(init, pred);
    }
}

/// The users of the configuration, to be looked up by leaderboard id and by chat account.
/// Where two users share an id or an account, the one listed later is found.
#[derive(Debug, Clone)]
pub struct ContextUsers {
    users: Vec<User>,
}

impl ContextUsers {
    /// The users, in the order of the configuration.
    pub closed spec fn users(self) -> Seq<User> {
        self.users@
    }

    /// The directory of the users that the configuration lists.
    pub fn from_config(users: Vec<User>) -> (directory: ContextUsers)
        ensures
            directory.users() == users@,
    {
        ContextUsers { users }
    }

    /// The user with the leaderboard id `id`.
    pub fn by_aoc(&self, id: u64) -> (user: Option<&User>)
        ensures
            match last_user_where(self.users(), has_aoc(id)) {
                Some(found) => user == Some(&found),
                None => user is None,
            },
    {
        let mut i: usize = self.users.len();
        while i > 0
            invariant
                i <= self.users@.len(),
                forall|j: int| i <= j < self.users@.len() ==> !has_aoc(id)(#[trigger] self.users@[j]),
            decreases i,
        {
            i -= 1;
            let user = &self.users[i];
            let matches = match user.aoc {
                Some(aoc) => aoc == id,
                None => false,
            };
            if matches {
                proof {
                    lemma_last_where(self.users@, has_aoc(id), i as int);
                }
                return Some(user);
            }
        }
        proof {
            lemma_last_where_none(self.users@, has_aoc(id));
        }
        None
    }

    /// The user with the chat account `id`.
    pub fn by_matrix(&self, id: &str) -> (user: Option<&User>)
        ensures
            match last_user_where(self.users(), has_matrix(id@)) {
                Some(found) => user == Some(&found),
                None => user is None,
            },
    {
        let mut i: usize = self.users.len();
        while i > 0
            invariant
                i <= self.users@.len(),
                forall|j: int|
                    i <= j < self.users@.len() ==> !has_matrix(id@)(#[trigger] self.users@[j]),
            decreases i,
        {
            i -= 1;
            let user = &self.users[i];
            let matches = match &user.matrix {
                Some(account) => str_eq(account.as_str(), id),
                None => false,
            };
            if matches {
                proof {
                    lemma_last_where(self.users@, has_matrix(id@), i as int);
                }
                return Some(user);
            }
        }
        proof {
            lemma_last_where_none(self.users@, has_matrix(id@));
        }
        None
    }
}

/// Whether `member` is who `query` asks for: `query` is the member's id as a number, or
/// the member's name up to the case of letters.
pub open spec fn answers_to(member: PrivateLeaderboardMember, query: Seq<char>) -> bool {
    ||| u64_value(query) == Some(member.id)
    ||| member.name matches Some(name) && lowercase_of(name@) == lowercase_of(query)
}

/// A member that `query` asks for, by id or by name. Where several members answer to
/// `query`, any one of them is found.
pub fn find_member<'a>(members: &'a PrivateLeaderboardMembers, query: &str) -> (found: Option<
    &'a PrivateLeaderboardMember,
>)
    ensures
        found matches Some(member) ==> answers_to(*member, query@) && exists|key: u64|
            #[trigger] members@.contains_key(key) && members@[key] == *member,
        found is None ==> forall|key: u64| #[trigger]
            members@.contains_key(key) ==> !answers_to(members@[key], query@),
{
    let list = entries(members);
    let id = parse_u64(query);
    let lower = to_lowercase(query);
    let mut i: usize = 0;
    while i < list.len()
        invariant
            i <= list@.len(),
            is_listing(list@, members@),
            id == u64_value(query@),
            lower@ == lowercase_of(query@),
            forall|j: int| 0 <= j < i ==> !answers_to(*(#[trigger] list@[j]).1, query@),
        decreases list@.len() - i,
    {
        let member = list[i].1;
        let by_id = match id {
            Some(id) => id == member.id,
            None => false,
        };
        let by_name = match &member.name {
            Some(name) => to_lowercase(name.as_str()) == lower,
            None => false,
        };
        if by_id || by_name {
            proof {
                assert(members@.contains_key(list@[i as int].0));
            }
            return Some(member);
        }
        i += 1;
    }
    proof {
        assert forall|key: u64| #[trigger] members@.contains_key(key) implies !answers_to(
            members@[key],
            query@,
        ) by {
            let j = choose|j: int| 0 <= j < list@.len() && (#[trigger] list@[j]).0 == key;
            assert(!answers_to(*list@[j].1, query@));
        }
    }
    None
}

/// A member with the id `id`. Where several members have the id, any one of them is found.
pub fn member_with_id<'a>(members: &'a PrivateLeaderboardMembers, id: u64) -> (found: Option<
    &'a PrivateLeaderboardMember,
>)
    ensures
        found matches Some(member) ==> member.id == id && exists|key: u64|
            #[trigger] members@.contains_key(key) && members@[key] == *member,
        found is None ==> forall|key: u64| #[trigger] members@.contains_key(key) ==> members@[key].id
            != id,
{
    let list = entries(members);
    let mut i: usize = 0;
    while i < list.len()
        invariant
            i <= list@.len(),
            is_listing(list@, members@),
            forall|j: int| 0 <= j < i ==> (#[trigger] list@[j]).1.id != id,
        decreases list@.len() - i,
    {
        let member = list[i].1;
        if member.id == id {
            proof {
                assert(members@.contains_key(list@[i as int].0));
            }
            return Some(member);
        }
        i += 1;
    }
    proof {
        assert forall|key: u64| #[trigger] members@.contains_key(key) implies members@[key].id
            != id by {
            let j = choose|j: int| 0 <= j < list@.len() && (#[trigger] list@[j]).0 == key;
            assert(list@[j].1.id != id);
        }
    }
    None
}

} // verus!
