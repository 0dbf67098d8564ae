use aocbot::parser::{parse, ParsedCommand};

fn check(input: &str, command: &str, args: &[&str], kwargs: &[(&str, &str)]) {
    let parsed = parse(input);
    assert_eq!(parsed.command, command);
    assert_eq!(parsed.args.iter().copied().collect::<Vec<_>>(), args);
    assert_eq!(parsed.kwargs.len(), kwargs.len());
    for (key, value) in kwargs {
        assert_eq!(parsed.kwarg(key), Some(*value));
    }
}

#[test]
fn no_args() {
    check("test", "test", &[], &[]);
    check(" test", "test", &[], &[]);
    check("test ", "test", &[], &[]);
}

#[test]
fn args() {
    check("test foo  bar", "test", &["foo", "bar"], &[]);
    check("test foo  bar ", "test", &["foo", "bar"], &[]);
}

#[test]
fn kwargs() {
    let kwargs = [("foo", "bar"), ("x", "123")];
    check("test foo=bar X=123", "test", &[], &kwargs);
    check("test Foo=bar x=123 ", "test", &[], &kwargs);
}

#[test]
fn quotes() {
    check(
        r#"test foo "bar  baz" test="a b" 42"#,
        "test",
        &["foo", "bar  baz", "42"],
        &[("test", "a b")],
    );
    check(r#"test "x=y""#, "test", &["x=y"], &[]);
}

#[test]
fn empty_and_blank_commands() {
    check("", "", &[], &[]);
    check("   ", "", &[], &[]);
    check("\t\n", "", &[], &[]);
}

#[test]
fn a_later_value_replaces_an_earlier_one() {
    check("cmd a=1 b=2 A=3", "cmd", &[], &[("a", "3"), ("b", "2")]);
    let parsed = parse("cmd a=1 b=2 A=3");
    assert_eq!(parsed.kwargs[0].0, "a");
    assert_eq!(parsed.kwargs[1].0, "b");
}

#[test]
fn quotes_that_are_not_closed_run_to_the_end() {
    check(r#"cmd "a b"#, "cmd", &["a b"], &[]);
    check(r#"cmd k="a b"#, "cmd", &[], &[("k", "a b")]);
    check(r#"cmd ""#, "cmd", &[""], &[]);
}

#[test]
fn quotes_inside_an_argument_are_kept() {
    check(r#"cmd a"b c"#, "cmd", &[r#"a"b"#, "c"], &[]);
    check(r#"cmd "a"b"#, "cmd", &["a", "b"], &[]);
    check(r#"cmd k=v"w"#, "cmd", &[], &[("k", r#"v"w"#)]);
}

#[test]
fn equals_signs() {
    check("cmd =x", "cmd", &[], &[("", "x")]);
    check("cmd k=", "cmd", &[], &[("k", "")]);
    check("cmd k=a=b", "cmd", &[], &[("k", "a=b")]);
    check("cmd k= v", "cmd", &["v"], &[("k", "")]);
    check("a=b c", "a=b", &["c"], &[]);
}

#[test]
fn text_beyond_ascii() {
    check("grüße schön\u{2003}ÄB=ß", "grüße", &["schön"], &[("äb", "ß")]);
    check("cmd ǅ=1", "cmd", &[], &[("ǆ", "1")]);
    check("cmd k1=v", "cmd", &[], &[("k1", "v")]);
}

#[test]
fn named_arguments_come_before_positional_ones() {
    let mut parsed: ParsedCommand = parse("lb 2023 rows=10 5");
    assert_eq!(parsed.get_from_kwargs_or_args("year"), Some("2023"));
    assert_eq!(parsed.get_from_kwargs_or_args("rows"), Some("10"));
    assert_eq!(parsed.get_from_kwargs_or_args("rows"), Some("10"));
    assert_eq!(parsed.get_from_kwargs_or_args("offset"), Some("5"));
    assert_eq!(parsed.get_from_kwargs_or_args("offset"), None);
    assert_eq!(parsed.get_from_kwargs_or_args("rows"), Some("10"));
    assert_eq!(parsed.command, "lb");
    assert_eq!(parsed.args.len(), 0);
    assert_eq!(parsed.kwarg("year"), None);
}
