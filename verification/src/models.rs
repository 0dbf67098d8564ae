//! The leaderboard as the event reports it.

use crate::fmt::{decimal, push_decimal};
use crate::time::Timestamp;
use std::collections::HashMap;
use vstd::prelude::*;
use vstd::string::StringExecFns;

verus! {

/// The account that the leaderboard is read with: its id and the code that lets others join
/// its private leaderboard.
#[derive(Debug, Clone, PartialEq, Eq)]
pub struct AocWhoami {
    pub user_id: u64,
    pub invite_code: String,
}

/// One solved part of a puzzle: when the star was earned, and the event's own index of
/// the star.
#[derive(Debug, Clone, Copy, PartialEq, Eq)]
pub struct PrivateLeaderboardMemberCompletionDayPart {
    pub get_star_ts: Timestamp,
    pub star_index: u64,
}

/// What a member has solved of one day's puzzle: part one, and part two if solved too.
/// Part two is only ever there together with part one.
#[derive(Debug, Clone, Copy, PartialEq, Eq)]
pub struct PrivateLeaderboardMemberCompletionDay {
    pub fst: PrivateLeaderboardMemberCompletionDayPart,
    pub snd: Option<PrivateLeaderboardMemberCompletionDayPart>,
}

/// One member of a private leaderboard.
#[derive(Debug, Clone, PartialEq, Eq)]
pub struct PrivateLeaderboardMember {
    pub id: u64,
    pub name: Option<String>,
    pub global_score: u32,
    pub local_score: u32,
    pub stars: u32,
    /// When the member earned their latest star; the epoch for a member without stars.
    pub last_star_ts: Timestamp,
    /// Day of December to what the member has solved of that day's puzzle.
    pub completion_day_level: HashMap<u32, PrivateLeaderboardMemberCompletionDay>,
}

/// All members of a private leaderboard, by member id.
pub type PrivateLeaderboardMembers = HashMap<u64, PrivateLeaderboardMember>;

/// A private leaderboard of one year as read at one moment.
#[derive(Debug, Clone, PartialEq, Eq)]
pub struct PrivateLeaderboard {
    pub event: String,
    pub owner_id: u64,
    pub members: PrivateLeaderboardMembers,
}

impl PrivateLeaderboardMember {
    /// The name shown for the member: their own, or a stand-in made of their id.
    pub open spec fn display_name_spec(self) -> Seq<char> {
        match self.name {
            Some(name) => name@,
            None => "[anonymous user #"@ + decimal(self.id as nat) + "]"@,
        }
    }

    /// How the member is referred to in a message: the link to their chat account followed
    /// by the display name in brackets, or the display name in bold where no chat account
    /// is known.
    pub open spec fn mention_spec(self, matrix: Option<Seq<char>>) -> Seq<char> {
        match matrix {
            Some(uri) => uri + " ("@ + self.display_name_spec() + ")"@,
            None => "**"@ + self.display_name_spec() + "**"@,
        }
    }

    /// When the member earned the star of the given part of the given day's puzzle, if
    /// they have.
    pub open spec fn part_ts_spec(self, day: u32, part2: bool) -> Option<Timestamp> {
        if self.completion_day_level@.contains_key(day) {
            let completion = self.completion_day_level@[day];
            if part2 {
                match completion.snd {
                    Some(part) => Some(part.get_star_ts),
                    None => None,
                }
            } else {
                Some(completion.fst.get_star_ts)
            }
        } else {
            None
        }
    }

    /// The name shown for the member: their own, or `[anonymous user #<id>]`.
    pub fn display_name(&self) -> (name: String)
        ensures
            name@ == self.display_name_spec(),
    {
        match &self.name {
            Some(name) => name.clone(),
            None => {
                let mut name = String::new();
                name.append("[anonymous user #");
                push_decimal(&mut name, self.id);
                name.append("]");
                assert(name@ =~= self.display_name_spec());
                name
            },
        }
    }

    /// How the member is referred to in a message, given the link to their chat account
    /// where one is known.
    pub fn matrix_mention_or_display_name(&self, matrix: Option<&str>) -> (text: String)
        ensures
            text@ == self.mention_spec(
                match matrix {
                    Some(uri) => Some(uri@),
                    None => None,
                },
            ),
    {
        let name = self.display_name();
        let mut text = String::new();
        match matrix {
            Some(uri) => {
                text.append(uri);
                text.append(" (");
                text.append(name.as_str());
                text.append(")");
                assert(text@ =~= uri@ + " ("@ + self.display_name_spec() + ")"@);
            },
            None => {
                text.append("**");
                text.append(name.as_str());
                text.append("**");
                assert(text@ =~= "**"@ + self.display_name_spec() + "**"@);
            },
        }
        text
    }

    /// When the member earned the star of the given part of the given day's puzzle, if
    /// they have.
    pub fn part_ts(&self, day: u32, part2: bool) -> (ts: Option<Timestamp>)
        ensures
            ts == self.part_ts_spec(day, part2),
    {
        match self.completion_day_level.get(&day) {
            Some(completion) => {
                if part2 {
                    match completion.snd {
                        Some(part) => Some(part.get_star_ts),
                        None => None,
                    }
                } else {
                    Some(completion.fst.get_star_ts)
                }
            },
            None => None,
        }
    }
}

} // verus!
