use aocbot::api::{
    leaderboard_url, parse_whoami, session_cookie, whoami_from_captures, WhoamiError,
    INVITE_CODE_PATTERN, PRIVATE_LEADERBOARD_URL,
};
use aocbot::models::AocWhoami;

#[test]
fn invite_code_regex() {
    let whoami = parse_whoami(
        "Others can join it using the code <code>123456-42ff1337</code>. Up to \
         <code>200</code> users can join, including yourself.",
    )
    .unwrap();
    assert_eq!(whoami.invite_code, "123456-42ff1337");
    assert_eq!(whoami.user_id.to_string(), "123456");
}

#[test]
fn invite_code_pattern_as_the_regex_crate_reads_it() {
    let regex = regex::Regex::new(INVITE_CODE_PATTERN).unwrap();
    let c = regex
        .captures(
            "Others can join it using the code <code>123456-42ff1337</code>. Up to \
             <code>200</code> users can join, including yourself.",
        )
        .unwrap();
    assert_eq!(&c[1], "123456-42ff1337");
    assert_eq!(&c[2], "123456");
}

#[test]
fn whoami_takes_the_first_invite_code() {
    let page = "<code>200</code> <code>7-abc</code> <code>8-def</code>";
    assert_eq!(
        parse_whoami(page),
        Ok(AocWhoami { user_id: 7, invite_code: "7-abc".to_owned() })
    );
}

#[test]
fn whoami_without_an_invite_code() {
    assert_eq!(parse_whoami(""), Err(WhoamiError::InviteCodeNotFound));
    assert_eq!(parse_whoami("<code>200</code>"), Err(WhoamiError::InviteCodeNotFound));
    assert_eq!(parse_whoami("<code>12-AB</code>"), Err(WhoamiError::InviteCodeNotFound));
    assert_eq!(whoami_from_captures(None), Err(WhoamiError::InviteCodeNotFound));
    assert_eq!(whoami_from_captures(Some(vec![])), Err(WhoamiError::InviteCodeNotFound));
    assert_eq!(
        whoami_from_captures(Some(vec![Some("x".to_owned()), None, Some("1".to_owned())])),
        Err(WhoamiError::InviteCodeNotFound)
    );
}

#[test]
fn whoami_with_an_id_that_is_no_number() {
    assert_eq!(
        parse_whoami("<code>18446744073709551615-a</code>"),
        Ok(AocWhoami { user_id: u64::MAX, invite_code: "18446744073709551615-a".to_owned() })
    );
    assert_eq!(
        parse_whoami("<code>18446744073709551616-a</code>"),
        Err(WhoamiError::InvalidUserId)
    );
    assert_eq!(parse_whoami("<code>١٢٣-a</code>"), Err(WhoamiError::InvalidUserId));
    assert_eq!(
        whoami_from_captures(Some(vec![
            Some("<code>+5-a</code>".to_owned()),
            Some("+5-a".to_owned()),
            Some("+5".to_owned()),
        ])),
        Ok(AocWhoami { user_id: 5, invite_code: "+5-a".to_owned() })
    );
    assert_eq!(
        whoami_from_captures(Some(vec![
            Some("<code>x-a</code>".to_owned()),
            Some("x-a".to_owned()),
            Some("x".to_owned()),
        ])),
        Err(WhoamiError::InvalidUserId)
    );
    assert_eq!(
        whoami_from_captures(Some(vec![
            Some("<code>05-a</code>".to_owned()),
            Some("05-a".to_owned()),
            Some("05".to_owned()),
        ])),
        Ok(AocWhoami { user_id: 5, invite_code: "05-a".to_owned() })
    );
}

#[test]
fn addresses() {
    assert_eq!(PRIVATE_LEADERBOARD_URL, "https://adventofcode.com/leaderboard/private");
    assert_eq!(
        leaderboard_url(2024, 123456),
        "https://adventofcode.com/2024/leaderboard/private/view/123456.json"
    );
    assert_eq!(
        leaderboard_url(-1, 0),
        "https://adventofcode.com/-1/leaderboard/private/view/0.json"
    );
    assert_eq!(session_cookie("abc123"), "session=abc123");
    assert_eq!(session_cookie(""), "session=");
}
