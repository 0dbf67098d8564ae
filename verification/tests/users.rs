use aocbot::models::{PrivateLeaderboardMember, PrivateLeaderboardMembers};
use aocbot::time::Timestamp;
use aocbot::users::{find_member, member_with_id, ContextUsers, User};
use std::collections::HashMap;

fn user(aoc: Option<u64>, matrix: Option<&str>, repo: Option<&str>) -> User {
    User { aoc, matrix: matrix.map(str::to_owned), repo: repo.map(str::to_owned) }
}

fn member(id: u64, name: Option<&str>) -> PrivateLeaderboardMember {
    PrivateLeaderboardMember {
        id,
        name: name.map(str::to_owned),
        global_score: 0,
        local_score: 0,
        stars: 0,
        last_star_ts: Timestamp::epoch(),
        completion_day_level: HashMap::new(),
    }
}

fn members(list: Vec<PrivateLeaderboardMember>) -> PrivateLeaderboardMembers {
    list.into_iter().map(|m| (m.id, m)).collect()
}

#[test]
fn users_by_leaderboard_id_and_by_chat_account() {
    let list = vec![
        user(Some(1), Some("@a:x.org"), Some("https://a")),
        user(None, Some("@b:x.org"), None),
        user(Some(3), None, Some("https://c")),
        user(Some(1), Some("@b:x.org"), Some("https://later")),
    ];
    let users = ContextUsers::from_config(list.clone());
    assert_eq!(users.by_aoc(1), Some(&list[3]));
    assert_eq!(users.by_aoc(3), Some(&list[2]));
    assert_eq!(users.by_aoc(2), None);
    assert_eq!(users.by_matrix("@a:x.org"), Some(&list[0]));
    assert_eq!(users.by_matrix("@b:x.org"), Some(&list[3]));
    assert_eq!(users.by_matrix("@B:x.org"), None);
    assert_eq!(users.by_matrix(""), None);
    let nobody = ContextUsers::from_config(vec![]);
    assert_eq!(nobody.by_aoc(1), None);
    assert_eq!(nobody.by_matrix("@a:x.org"), None);
}

#[test]
fn members_by_id_or_name() {
    let all = members(vec![member(12, Some("Ada")), member(34, Some("ÉMILE")), member(56, None)]);
    assert_eq!(find_member(&all, "12").map(|m| m.id), Some(12));
    assert_eq!(find_member(&all, "+12").map(|m| m.id), Some(12));
    assert_eq!(find_member(&all, "012").map(|m| m.id), Some(12));
    assert_eq!(find_member(&all, "ada").map(|m| m.id), Some(12));
    assert_eq!(find_member(&all, "ADA").map(|m| m.id), Some(12));
    assert_eq!(find_member(&all, "émile").map(|m| m.id), Some(34));
    assert_eq!(find_member(&all, "56").map(|m| m.id), Some(56));
    assert_eq!(find_member(&all, "57"), None);
    assert_eq!(find_member(&all, "ad"), None);
    assert_eq!(find_member(&all, ""), None);
    assert_eq!(find_member(&all, "[anonymous user #56]"), None);
    assert_eq!(member_with_id(&all, 34).map(|m| m.id), Some(34));
    assert_eq!(member_with_id(&all, 35), None);
    let moved: PrivateLeaderboardMembers = vec![(1, member(99, None))].into_iter().collect();
    assert_eq!(member_with_id(&moved, 99).map(|m| m.id), Some(99));
    assert_eq!(member_with_id(&moved, 1), None);
}
