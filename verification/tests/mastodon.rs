use aocbot::login::{parse_credentials, Credentials};
use aocbot::mastodon::{file_name, is_image, is_relevant, newest, AttachmentType, GarygradyConfig, Id};
use aocbot::text::{after_last, split_words, str_eq};
use aocbot::time::Timestamp;

#[test]
fn the_newest_post_seen() {
    assert_eq!(newest(Id(5), Id(7)), Id(7));
    assert_eq!(newest(Id(7), Id(5)), Id(7));
    assert_eq!(newest(Id(7), Id(7)), Id(7));
    assert_eq!(newest(Id(0), Id(u64::MAX)), Id(u64::MAX));
}

#[test]
fn posts_that_are_passed_on() {
    let ts = |secs| Timestamp::from_secs(secs).unwrap();
    let config = GarygradyConfig { interval: 60, max_age: 3600 };
    assert!(is_relevant(true, ts(10_000), ts(10_000), &config));
    assert!(is_relevant(true, ts(6_400), ts(10_000), &config));
    assert!(!is_relevant(true, ts(6_399), ts(10_000), &config));
    assert!(!is_relevant(false, ts(10_000), ts(10_000), &config));
    assert!(is_relevant(true, ts(20_000), ts(10_000), &config));
    let forever = GarygradyConfig { interval: 60, max_age: u64::MAX };
    let first = Timestamp::from_secs(aocbot::time::MIN_TIMESTAMP_SECS).unwrap();
    let last = Timestamp::from_secs(aocbot::time::MAX_TIMESTAMP_SECS).unwrap();
    assert!(is_relevant(true, first, last, &forever));
    assert!(is_image(AttachmentType::Image));
    assert!(!is_image(AttachmentType::Unknown));
}

#[test]
fn names_of_files() {
    assert_eq!(file_name("/media/2024/comic.png"), "comic.png");
    assert_eq!(file_name("comic.png"), "comic.png");
    assert_eq!(file_name("/media/"), "");
    assert_eq!(file_name(""), "");
    assert_eq!(file_name("/"), "");
    assert_eq!(file_name("a/b/ü.jpg"), "ü.jpg");
    for path in ["/a/b", "a", "", "//", "a/"] {
        assert_eq!(file_name(path), path.rsplit('/').next().unwrap());
    }
}

#[test]
fn words_and_what_stands_behind_a_mark() {
    assert_eq!(split_words("  two\twords\u{2003}and more \n"), ["two", "words", "and", "more"]);
    assert_eq!(split_words(""), Vec::<&str>::new());
    assert_eq!(split_words(" \t "), Vec::<&str>::new());
    assert_eq!(split_words("one"), ["one"]);
    for text in ["a b  c", " a", "a ", "", "  ", "ä\u{a0}ö"] {
        assert_eq!(split_words(text), text.split_whitespace().collect::<Vec<_>>());
    }
    assert_eq!(after_last("a=b=c", '='), "c");
    assert_eq!(after_last("abc", '='), "abc");
    assert_eq!(after_last("abc=", '='), "");
    assert_eq!(after_last("=", '='), "");
    assert!(str_eq("abc", "abc"));
    assert!(!str_eq("abc", "abd"));
    assert!(!str_eq("abc", "ab"));
    assert!(str_eq("", ""));
}

#[test]
fn what_to_log_in_with() {
    assert_eq!(
        parse_credentials("syt_abc\n"),
        Some(Credentials::Token("syt_abc".to_owned()))
    );
    assert_eq!(
        parse_credentials("  https://example.org/?loginToken=syt_abc  "),
        Some(Credentials::Token("syt_abc".to_owned()))
    );
    assert_eq!(
        parse_credentials("bot  hunter2\n"),
        Some(Credentials::Password { username: "bot".to_owned(), password: "hunter2".to_owned() })
    );
    assert_eq!(
        parse_credentials("bot pass=word"),
        Some(Credentials::Password { username: "bot".to_owned(), password: "pass=word".to_owned() })
    );
    assert_eq!(parse_credentials(""), None);
    assert_eq!(parse_credentials("  \n"), None);
    assert_eq!(parse_credentials("one two three"), None);
    assert_eq!(parse_credentials("token="), Some(Credentials::Token(String::new())));
}
