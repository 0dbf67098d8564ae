use aocbot::models::{
    PrivateLeaderboardMember, PrivateLeaderboardMemberCompletionDay,
    PrivateLeaderboardMemberCompletionDayPart,
};
use aocbot::time::Timestamp;
use std::collections::HashMap;

fn member(id: u64, name: Option<&str>) -> PrivateLeaderboardMember {
    PrivateLeaderboardMember {
        id,
        name: name.map(str::to_owned),
        global_score: 0,
        local_score: 0,
        stars: 0,
        last_star_ts: Timestamp::epoch(),
        completion_day_level: HashMap::new(),
    }
}

#[test]
fn names_of_members() {
    assert_eq!(member(42, Some("Ada")).display_name(), "Ada");
    assert_eq!(member(42, Some("")).display_name(), "");
    assert_eq!(member(42, None).display_name(), "[anonymous user #42]");
    assert_eq!(member(0, None).display_name(), "[anonymous user #0]");
    assert_eq!(
        member(u64::MAX, None).display_name(),
        "[anonymous user #18446744073709551615]"
    );
}

#[test]
fn mentions_of_members() {
    let ada = member(42, Some("Ada"));
    assert_eq!(ada.matrix_mention_or_display_name(None), "**Ada**");
    assert_eq!(
        ada.matrix_mention_or_display_name(Some("https://matrix.to/#/@ada:example.com")),
        "https://matrix.to/#/@ada:example.com (Ada)"
    );
    assert_eq!(
        member(7, None).matrix_mention_or_display_name(None),
        "**[anonymous user #7]**"
    );
    assert_eq!(
        member(7, None).matrix_mention_or_display_name(Some("@x:y")),
        "@x:y ([anonymous user #7])"
    );
}

#[test]
fn stars_of_members() {
    let part = |secs| PrivateLeaderboardMemberCompletionDayPart {
        get_star_ts: Timestamp::from_secs(secs).unwrap(),
        star_index: 3,
    };
    let mut m = member(1, None);
    m.completion_day_level
        .insert(2, PrivateLeaderboardMemberCompletionDay { fst: part(10), snd: None });
    m.completion_day_level
        .insert(3, PrivateLeaderboardMemberCompletionDay { fst: part(20), snd: Some(part(30)) });
    assert_eq!(m.part_ts(1, false), None);
    assert_eq!(m.part_ts(1, true), None);
    assert_eq!(m.part_ts(2, false), Timestamp::from_secs(10));
    assert_eq!(m.part_ts(2, true), None);
    assert_eq!(m.part_ts(3, false), Timestamp::from_secs(20));
    assert_eq!(m.part_ts(3, true), Timestamp::from_secs(30));
}
