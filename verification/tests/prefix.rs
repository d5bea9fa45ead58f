use rusty_ircd::irc::prefix::{assemble_prefix, parse_prefix, Prefix};

#[test]
fn test_assemble_prefix() {
    assert_eq!(
        assemble_prefix(Prefix {
            nick: Some("aoei".to_string()),
            user: Some("~ykstort".to_string()),
            host: Some("localhost".to_string()),
        }),
        "aoei!~ykstort@localhost",
        "format is <nick>!<user>@<host>"
    );
    assert_eq!(
        assemble_prefix(Prefix {
            nick: Some("aoei".to_string()),
            user: None,
            host: Some("localhost".to_string()),
        }),
        "aoei@localhost",
        "format is <nick>@<host>"
    );
    assert_eq!(
        assemble_prefix(Prefix {
            nick: Some("aoei".to_string()),
            user: None,
            host: None,
        }),
        "aoei",
        "format is <nick>"
    );
    assert_eq!(
        assemble_prefix(Prefix {
            nick: None,
            user: None,
            host: Some("localhost".to_string()),
        }),
        "localhost",
        "format is <host>"
    );
    assert_eq!(
        assemble_prefix(Prefix {
            nick: None,
            user: Some("~ykstort".to_string()),
            host: Some("localhost".to_string()),
        }),
        "localhost",
        "format is <host>, user/ident should not be present unless both nick and host are also present"
    );
    assert_eq!(
        assemble_prefix(Prefix {
            nick: Some("aoei".to_string()),
            user: Some("~ykstort".to_string()),
            host: None,
        }),
        "aoei",
        "format is <nick>, user/ident should not be present unless both nick and host are also present"
    );
}

#[test]
fn prefix_test_parse_prefix() {
    if let Some(p) = parse_prefix("aoei!~ykstort@localhost") {
        assert_eq!(
            p,
            Prefix {
                nick: Some("aoei".to_string()),
                user: Some("~ykstort".to_string()),
                host: Some("localhost".to_string()),
            },
            "nick!user@host parses correctly"
        );
    } else {
        panic!("nick!user@host parsed as invalid");
    }
    if let Some(p) = parse_prefix("aoei@localhost") {
        assert_eq!(
            p,
            Prefix {
                nick: Some("aoei".to_string()),
                user: None,
                host: Some("localhost".to_string()),
            },
            "nick@host parses correctly"
        );
    } else {
        panic!("nick@host parsed as invalid");
    }
    if let Some(p) = parse_prefix("aoei") {
        assert_eq!(
            p,
            Prefix {
                nick: None,
                user: None,
                host: Some("aoei".to_string()),
            },
            "nick parses as host if it can be a valid host"
        );
    } else {
        panic!("nick parsed as invalid");
    }
    if let Some(p) = parse_prefix("aoei[]") {
        assert_eq!(
            p,
            Prefix {
                nick: Some("aoei[]".to_string()),
                user: None,
                host: None,
            },
            "nick like `aoei[]` parses as nick if it cannot be a valid host"
        );
    } else {
        panic!("nick parsed as invalid");
    }
    if let Some(_) = parse_prefix("aoei[]!~ykstort") {
        panic!("nick!user should be invalid parses as nick if it cannot be a valid host");
    }
}

#[test]
fn parsed_prefix_fields_and_reassembly() {
    let p = parse_prefix("nick!~u@irc.example.org").unwrap();
    assert_eq!(p.nick.as_deref(), Some("nick"));
    assert_eq!(p.user.as_deref(), Some("~u"));
    assert_eq!(p.host.as_deref(), Some("irc.example.org"));
    assert_eq!(assemble_prefix(p), "nick!~u@irc.example.org");
    let q = parse_prefix("Nick").unwrap();
    assert_eq!(q.host, None);
    assert_eq!(assemble_prefix(q), "Nick");
    assert!(parse_prefix("").is_none());
    assert!(parse_prefix("nick!@host").is_none());
    assert!(parse_prefix("1nick@host").is_none());
}

#[test]
fn prefixes_compare_as_whole_values() {
    let a = Prefix { nick: Some("n".to_string()), user: None, host: None };
    let b = Prefix {
        nick: Some("n".to_string()),
        user: Some("u".to_string()),
        host: Some("h".to_string()),
    };
    let c = Prefix { nick: None, user: None, host: None };
    let b2 = Prefix {
        nick: Some("n".to_string()),
        user: Some("u".to_string()),
        host: Some("h".to_string()),
    };
    assert!(a != b);
    assert!(b == b2);
    assert!(a != c);
}
