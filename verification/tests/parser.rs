use rusty_ircd::parser::{
    parse_host, parse_message, parse_message_defined, HostType, MsgPrefix, ParseError,
};

#[test]
fn hosts_by_kind() {
    assert!(matches!(parse_host("10.1.2.3"), Ok(HostType::HostAddrV4(ref h)) if h == "10.1.2.3"));
    assert!(matches!(parse_host("::1"), Ok(HostType::HostAddrV6(ref h)) if h == "::1"));
    assert!(matches!(parse_host("irc.example.org"), Ok(HostType::HostName(ref h)) if h == "irc.example.org"));
    assert!(matches!(parse_host("bad host"), Err(ParseError::InvalidHost(ref h)) if h == "bad host"));
    assert!(matches!(parse_host("fe80::1:2"), Ok(HostType::HostAddrV6(ref h)) if h == "fe80::1:2"));
    assert!(matches!(parse_host("::ffff:10.0.0.1"), Ok(HostType::HostAddrV6(_))));
    assert!(matches!(parse_host("1:2:3:4:5:6:7:8"), Ok(HostType::HostAddrV6(_))));
    assert!(matches!(parse_host("1:2:3:4:5:6:7"), Err(ParseError::InvalidHost(_))));
    assert!(matches!(parse_host("1::2::3"), Err(ParseError::InvalidHost(_))));
}

#[test]
fn commands_and_parameters() {
    let m = parse_message("PRIVMSG #chan :hello there").unwrap();
    assert!(m.opt_prefix.is_none());
    assert_eq!(m.command, "PRIVMSG");
    assert_eq!(m.opt_params, vec!["#chan".to_string(), "hello there".to_string()]);
    let m = parse_message("QUIT").unwrap();
    assert_eq!(m.command, "QUIT");
    assert!(m.opt_params.is_empty());
    let m = parse_message("MODE a ").unwrap();
    assert_eq!(m.opt_params, vec!["a".to_string()]);
}

#[test]
fn fifteenth_parameter_takes_the_rest() {
    let m = parse_message("C a b c d e f g h i j k l m n o p").unwrap();
    assert_eq!(m.command, "C");
    assert_eq!(
        m.opt_params,
        vec!["a", "b", "c", "d", "e", "f", "g", "h", "i", "j", "k", "l", "m", "n", "o p"]
    );
    let m = parse_message("C 1 2 3 4 5 6 7 8 9 10 11 12 13 14 15").unwrap();
    assert_eq!(m.opt_params.len(), 15);
    assert_eq!(m.opt_params[14], "15");
}

#[test]
fn prefixes_are_read_without_their_colon() {
    let line = ":aoei!u@localhost PRIVMSG bob :hi there";
    let m = parse_message(line).unwrap();
    assert!(matches!(
        m.opt_prefix,
        Some(MsgPrefix::NickUserHost(ref n, ref u, HostType::HostName(ref h)))
            if n == "aoei" && u == "u" && h == "localhost"
    ));
    assert_eq!(m.command, "PRIVMSG");
    assert_eq!(m.opt_params, vec!["bob".to_string(), "hi there".to_string()]);
    let m = parse_message(":nick!user@10.0.0.1 PRIVMSG x :y").unwrap();
    assert!(matches!(
        m.opt_prefix,
        Some(MsgPrefix::NickUserHost(_, _, HostType::HostAddrV4(ref h))) if h == "10.0.0.1"
    ));
    assert!(matches!(parse_message(":"), Err(ParseError::NoCommand)));
    assert!(matches!(parse_message(": CMD"), Err(ParseError::EmptyName)));
    assert!(matches!(parse_message(":nick@ CMD"), Err(ParseError::EmptyHost)));
    assert!(matches!(parse_message(":!u@h CMD"), Err(ParseError::EmptyNick)));
    assert!(matches!(parse_message(":1x@h CMD"), Err(ParseError::InvalidNick(ref n)) if n == "1x"));
    assert!(matches!(parse_message(""), Err(ParseError::EmptyMessage)));
}

#[test]
fn definedness_and_error_text() {
    assert!(parse_message_defined("PRIVMSG x :hi"));
    assert!(!parse_message_defined("é"));
    assert!(!parse_message_defined("CMD é"));
    assert_eq!(ParseError::NoCommand.to_string(), "No command given");
    assert_eq!(ParseError::InvalidNick("x".to_string()).to_string(), "Invalid nick: x");
    assert_eq!(ParseError::EmptyHost.to_string(), "Empty host field `:nick!user@ CMD`");
}

#[test]
fn prefix_kinds() {
    let m = parse_message(":irc.example.org 001 x").unwrap();
    assert!(matches!(m.opt_prefix, Some(MsgPrefix::Host(HostType::HostName(ref h))) if h == "irc.example.org"));
    let m = parse_message(":aoei CMD").unwrap();
    assert!(matches!(m.opt_prefix, Some(MsgPrefix::Name(ref n)) if n == "aoei"));
    let m = parse_message(":aoei[] CMD").unwrap();
    assert!(matches!(m.opt_prefix, Some(MsgPrefix::Nick(ref n)) if n == "aoei[]"));
    let m = parse_message(":::1 CMD a").unwrap();
    assert!(matches!(m.opt_prefix, Some(MsgPrefix::Host(HostType::HostAddrV6(ref h))) if h == "::1"));
    assert_eq!(m.command, "CMD");
}
