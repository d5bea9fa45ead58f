use rusty_ircd::irc::tags::{
    assemble_tags, copy_and_escape_value, copy_and_unescape_value, parse_tags, Tags,
};

#[test]
fn tags_test_empty_or_missing_value() {
    let tags = parse_tags("foo=");
    let foo = tags.get("foo").unwrap();
    assert_eq!(foo.len(), 0, "key with empty val contains empty string");
    let tags = parse_tags("foo");
    let foo = tags.get("foo").unwrap();
    assert_eq!(foo.len(), 0, "key with no val contains empty string");
}

#[test]
fn tags_test_invalid_key_ignored_silently() {
    let tags = parse_tags("foo=bar;x'=jan;bo=jack");
    assert_eq!(tags.contains_key("x'"), false, "invalid key `x'` shouldn't be saved");
    assert_eq!(tags.get("foo").unwrap(), "bar", "`foo` key still processed");
    assert_eq!(tags.get("bo").unwrap(), "jack", "`bo` key still processed");
}

#[test]
fn tags_test_client_tag_prefix_ok() {
    let tags = parse_tags("+foo=bar");
    assert_eq!(tags.contains_key("+foo"), true, "client key `+foo` should be saved");
    assert_eq!(tags.get("+foo").unwrap(), "bar", "`+foo` key processed");
}

#[test]
fn tags_test_unescape_special() {
    let tags = parse_tags("foo=ab\\r\\ncd");
    assert_eq!(
        tags.get("foo").unwrap(),
        "ab\r\ncd",
        "escapes in value of foo should be translated to literal CR LF"
    );
    let tags = parse_tags("foo=ab\\s\\:cd");
    assert_eq!(
        tags.get("foo").unwrap(),
        "ab ;cd",
        "escapes in value of foo should be translated to literal space and semicolon"
    );
    let tags = parse_tags("foo=ab\\s\\");
    assert_eq!(tags.get("foo").unwrap(), "ab ", "trailing `\\` should be removed");
    let tags = parse_tags("foo=ab\\s\\b");
    assert_eq!(tags.get("foo").unwrap(), "ab b", "invalid escape just removes `\\`");
}

#[test]
fn tags_test_last_key_supersedes() {
    let tags = parse_tags("foo=bar;foo=baz");
    assert_eq!(tags.contains_key("foo"), true, "foo key is saved (twice)");
    assert_eq!(
        tags.get("foo").unwrap(),
        "baz",
        "`foo` key contains the last value in the tag string"
    );
}

#[test]
fn tags_test_assembly() {
    let tags = parse_tags("foo=bar;asdf=baz");
    let assembled = assemble_tags(&tags);
    assert_eq!(
        assembled == "foo=bar;asdf=baz" || assembled == "asdf=baz;foo=bar",
        true,
        "string `foo=bar;asdf=baz` is reproduced (possibly in another order)"
    );
}

#[test]
fn tags_test_assembly_empty_key() {
    let tags = parse_tags("foo=;asdf=baz");
    let assembled = assemble_tags(&tags);
    assert_eq!(
        assembled == "foo;asdf=baz" || assembled == "asdf=baz;foo",
        true,
        "string `foo=;asdf=baz` is reproduced (in some order) with foo's `=` dropped"
    );
}

#[test]
fn tags_test_assembly_escape() {
    let tags = parse_tags("foo=;asdf=baz\\n");
    let assembled = assemble_tags(&tags);
    assert_eq!(
        assembled == "foo;asdf=baz\\n" || assembled == "asdf=baz\\n;foo",
        true,
        "string `foo=;asdf=baz\\n` is reproduced (in some order) with escaped \\n, got {}",
        assembled
    );
}

#[test]
fn escaping_then_unescaping_gives_the_value_back() {
    let value = "a b;c\\d\r\ne";
    let escaped = copy_and_escape_value(value);
    assert_eq!(escaped, "a\\sb\\:c\\\\d\\r\\ne");
    assert_eq!(copy_and_unescape_value(&escaped), value);
}

#[test]
fn unescaping_drops_a_lone_backslash() {
    assert_eq!(copy_and_unescape_value("x\\"), "x");
    assert_eq!(copy_and_unescape_value("\\q"), "q");
    assert_eq!(copy_and_unescape_value(""), "");
}

#[test]
fn insert_replaces_the_value_of_a_present_key() {
    let mut tags = Tags::new();
    assert!(tags.is_empty());
    tags.insert("foo".to_string(), "one".to_string());
    tags.insert("bar".to_string(), "two".to_string());
    tags.insert("foo".to_string(), "three".to_string());
    assert_eq!(tags.len(), 2);
    assert_eq!(tags.get("foo").unwrap(), "three");
    assert_eq!(tags.get("bar").unwrap(), "two");
    assert!(tags.get("baz").is_none());
    let (k, v) = tags.entry_at(0);
    assert_eq!((k.as_str(), v.as_str()), ("foo", "three"));
}

#[test]
fn assembly_writes_only_the_first_two_tags() {
    let tags = parse_tags("a=1;b=2;c=3");
    assert_eq!(tags.len(), 3);
    assert_eq!(assemble_tags(&tags), "a=1;b=2");
    assert_eq!(assemble_tags(&Tags::new()), "");
}
