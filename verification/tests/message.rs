use rusty_ircd::irc::error::Error;
use rusty_ircd::irc::message::{
    parse_message, parse_message_defined, parse_prefix, parse_tags, split_once_infallible, validate_prefix,
};
use rusty_ircd::irc::tags::assemble_tags;

#[test]
fn test() {
    let msg = "@foo=bar :aoei!~ykkie@excession NICK joanna\r\n";
    assert!(parse_message(msg).is_ok());
    let msg = ":aoei!xyz@excession LOL";
    assert!(parse_message(msg).is_ok());

    assert_eq!(
        parse_message("@l!ol=asdf;foo=bar;wut :aoei!xy!z@excession LOL").err(),
        Some(Error::ParseError)
    );
}

#[test]
fn message_test_parse_prefix() {
    assert_eq!(
        parse_prefix("aoei!~ykstort@localhost"),
        Ok(vec!["aoei".into(), "~ykstort".into(), "localhost".into()]),
        "nick!user@host parses correctly"
    );
    assert_eq!(
        parse_prefix("aoei@localhost"),
        Ok(vec!["aoei".into(), "localhost".into()]),
        "nick@host parses correctly"
    );
    assert_eq!(
        parse_prefix("aoei"),
        Ok(vec!["aoei".into()]),
        "nick parses correctly"
    );
    assert_eq!(
        parse_prefix("aoei[]"),
        Ok(vec!["aoei[]".into()]),
        "nick like `aoei[]` parses as nick if it cannot be a valid host"
    );
    assert_eq!(
        parse_prefix("aoei[]!~ykstort"),
        Err(Error::ParseError),
        "nick like `aoei[]` parses as nick if it cannot be a valid host"
    );
}

#[test]
fn message_test_empty_or_missing_value() {
    let tags = parse_tags("foo=").unwrap();
    let foo = tags.get("foo").unwrap();
    assert_eq!(foo.len(), 0, "key with empty val contains empty string");
    let tags = parse_tags("foo").unwrap();
    let foo = tags.get("foo").unwrap();
    assert_eq!(foo.len(), 0, "key with no val contains empty string");
}

#[test]
fn message_test_invalid_key_ignored_silently() {
    let tags = parse_tags("foo=bar;x'=jan;bo=jack").unwrap();
    assert_eq!(
        tags.contains_key("x'"),
        false,
        "invalid key `x'` shouldn't be saved"
    );
    assert_eq!(tags.get("foo").unwrap(), "bar", "`foo` key still processed");
    assert_eq!(tags.get("bo").unwrap(), "jack", "`bo` key still processed");
}

#[test]
fn message_test_client_tag_prefix_ok() {
    let tags = parse_tags("+foo=bar").unwrap();
    assert_eq!(
        tags.contains_key("+foo"),
        true,
        "client key `+foo` should be saved"
    );
    assert_eq!(tags.get("+foo").unwrap(), "bar", "`+foo` key processed");
}

#[test]
fn message_test_unescape_special() {
    let tags = parse_tags("foo=ab\\r\\ncd").unwrap();
    assert_eq!(
        tags.get("foo").unwrap(),
        "ab\r\ncd",
        "escapes in value of foo should be translated to literal CR LF"
    );
    let tags = parse_tags("foo=ab\\s\\:cd").unwrap();
    assert_eq!(
        tags.get("foo").unwrap(),
        "ab ;cd",
        "escapes in value of foo should be translated to literal space and semicolon"
    );
    let tags = parse_tags("foo=ab\\s\\").unwrap();
    assert_eq!(tags.get("foo").unwrap(), "ab ", "trailing `\\` should be removed");
    let tags = parse_tags("foo=ab\\s\\b").unwrap();
    assert_eq!(tags.get("foo").unwrap(), "ab b", "invalid escape just removes `\\`");
}

#[test]
fn message_test_last_key_supersedes() {
    let tags = parse_tags("foo=bar;foo=baz").unwrap();
    assert_eq!(tags.contains_key("foo"), true, "foo key is saved (twice)");
    assert_eq!(
        tags.get("foo").unwrap(),
        "baz",
        "`foo` key contains the last value in the tag string"
    );
}

#[test]
fn message_test_assembly() {
    let tags = parse_tags("foo=bar;asdf=baz").unwrap();
    let assembled = assemble_tags(&tags);
    assert_eq!(
        assembled == "foo=bar;asdf=baz" || assembled == "asdf=baz;foo=bar",
        true,
        "string `foo=bar;asdf=baz` is reproduced (possibly in another order)"
    );
}

#[test]
fn message_test_assembly_empty_key() {
    let tags = parse_tags("foo=;asdf=baz").unwrap();
    let assembled = assemble_tags(&tags);
    assert_eq!(
        assembled == "foo;asdf=baz" || assembled == "asdf=baz;foo",
        true,
        "string `foo=;asdf=baz` is reproduced (in some order) with foo's `=` dropped"
    );
}

#[test]
fn message_test_assembly_escape() {
    let tags = parse_tags("foo=;asdf=baz\\n").unwrap();
    let assembled = assemble_tags(&tags);
    assert_eq!(
        assembled == "foo;asdf=baz\\n" || assembled == "asdf=baz\\n;foo",
        true,
        "string `foo=;asdf=baz\\n` is reproduced (in some order) with escaped \\n, got {}",
        assembled
    );
}

#[test]
fn parsed_line_parts() {
    let (tags, prefix, command, params) =
        parse_message("@a=1 :nick!u@host.org PRIVMSG #chan :hello there").unwrap();
    assert_eq!(tags.unwrap().get("a").unwrap(), "1");
    assert_eq!(prefix, Some(vec!["nick", "u", "host.org"]));
    assert_eq!(command, "PRIVMSG");
    assert_eq!(params, vec!["#chan"]);

    let (tags, prefix, command, params) = parse_message("JOIN #a b c").unwrap();
    assert!(tags.is_none());
    assert!(prefix.is_none());
    assert_eq!(command, "JOIN");
    assert_eq!(params, vec!["#a", "b", "c"]);
}

#[test]
fn the_fifteenth_parameter_takes_the_rest() {
    let line = "CMD p1 p2 p3 p4 p5 p6 p7 p8 p9 p10 p11 p12 p13 p14 p15 p16 p17";
    let (_, _, command, params) = parse_message(line).unwrap();
    assert_eq!(command, "CMD");
    assert_eq!(params.len(), 15);
    assert_eq!(params[13], "p14");
    assert_eq!(params[14], "p15 p16 p17");
    let (_, _, _, params) = parse_message("CMD p1 p2 p3 p4 p5 p6 p7 p8 p9 p10 p11 p12 p13 p14 p15").unwrap();
    assert_eq!(params.len(), 15);
    assert_eq!(params[14], "p15");
    let (_, _, _, params) = parse_message("CMD a b :c d").unwrap();
    assert_eq!(params, vec!["a", "b"]);
}

#[test]
fn parse_errors() {
    assert_eq!(parse_message(":bad!nick LOL").err(), Some(Error::ParseError));
    assert_eq!(parse_message(":nick@host.org").err(), Some(Error::ParseError));
    let long_tags = format!("@{} CMD", "k=v;".repeat(1100));
    assert_eq!(parse_message(&long_tags).err(), Some(Error::ParseError));
    let long_line = format!("CMD {}", "x".repeat(600));
    assert_eq!(parse_message(&long_line).err(), Some(Error::ParseError));
    assert_eq!(parse_tags(&"k;".repeat(2100)).err(), Some(Error::ParseError));
}

#[test]
fn prefix_word_checks() {
    assert!(validate_prefix(&["host.org"]));
    assert!(validate_prefix(&["Nick"]));
    assert!(!validate_prefix(&["Nick", "bad host"]));
    assert!(validate_prefix(&["nick", "user!x", "host"]));
    assert!(!validate_prefix(&[]));
    assert_eq!(parse_prefix("a!b!c@host"), Err(Error::ParseError));
    assert_eq!(
        split_once_infallible("k=v=w", '='),
        ("k".to_string(), "v=w".to_string())
    );
    assert_eq!(
        split_once_infallible("k", '='),
        ("k".to_string(), "".to_string())
    );
}

#[test]
fn lines_that_can_be_read() {
    assert!(parse_message_defined("JOIN #a b"));
    assert!(parse_message_defined(":nick!u@host.org PRIVMSG #c :hi"));
    assert!(parse_message_defined(":bad!nick LOL"));
    assert!(parse_message_defined("@a=1 CMD x"));
    assert!(!parse_message_defined(""));
    assert!(!parse_message_defined("@a=1"));
    assert!(!parse_message_defined("@a=1  CMD"));
    assert!(!parse_message_defined("CMD a  b"));
    assert!(parse_message_defined("CMD a :b  c"));
}
