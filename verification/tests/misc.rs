use rusty_ircd::irc::chan::{ChanError, ChanFlags, ChanTopic};
use rusty_ircd::irc::command::{to_ascii_uppercase, Command};
use rusty_ircd::irc::error::Error;
use rusty_ircd::names::{NameTable, NamedEntity};
use rusty_ircd::scratch::{baz, foo, funny_stuff, gimme_enum_box, option_test, Cmd};
use rusty_ircd::text::{find_char, push_decimal, push_signed_decimal, split_char, split_once_char};

#[test]
fn command_names_in_any_case() {
    assert_eq!(Command::from_name("nick"), Ok(Command::Nick));
    assert_eq!(Command::from_name("PrivMsg"), Ok(Command::Privmsg));
    assert_eq!(Command::from_name("LIST"), Ok(Command::List));
    assert_eq!("topic".parse::<Command>(), Ok(Command::Topic));
    assert_eq!(
        Command::from_name("whois"),
        Err(Error::UnknownCommand("whois".to_string()))
    );
    assert_eq!(to_ascii_uppercase("aBc-é1"), "ABC-é1");
}

#[test]
fn channel_values() {
    let t = ChanTopic { text: "t".to_string(), usermask: "n!u@h".to_string(), timestamp: 99 };
    let c = t.clone();
    assert_eq!(c.text, "t");
    assert_eq!(c.usermask, "n!u@h");
    assert_eq!(c.timestamp, 99);
    assert_eq!(
        ChanError::LinkFailed("bob".to_string(), "#c".to_string()).to_string(),
        "couldn't add bob to #c channel list"
    );
    assert_eq!(
        ChanError::UnlinkFailed("bob".to_string(), "#c".to_string()).to_string(),
        "couldn't remove bob from #c channel list"
    );
    assert_ne!(ChanFlags::Op, ChanFlags::Voice);
    assert_eq!(ChanFlags::Plain, ChanFlags::Plain);
}

#[test]
fn scratch_functions() {
    let (msg, b) = gimme_enum_box("JOIN").unwrap();
    assert_eq!(msg, "you joined!");
    assert!(matches!(*b, Cmd::Join(ref c) if c == "channel"));
    let (msg, b) = gimme_enum_box("QUIT").unwrap();
    assert_eq!(msg, "oh no :( bye");
    assert!(matches!(*b, Cmd::Quit));
    let (msg, b) = gimme_enum_box("MSG").unwrap();
    assert_eq!(msg, "hi!");
    assert!(matches!(*b, Cmd::Message(ref x, ref y) if x == "foo" && y == "bar"));
    assert!(gimme_enum_box("PART").is_err());
    assert_eq!(funny_stuff(), ("how now".to_string(), "brown cow".to_string()));
    assert_eq!(option_test("no_space".to_string()), None);
    assert_eq!(option_test("a space".to_string()), Some("LOLS".to_string()));
    assert_eq!(foo(), "stuff");
    assert_eq!(baz("daisy"), ("dais", "dais"));
    assert_eq!(baz("none"), ("", ""));
}

#[test]
fn decimals() {
    let mut s = String::new();
    push_decimal(&mut s, 0);
    push_decimal(&mut s, 1234567890);
    assert_eq!(s, "01234567890");
    let mut t = String::from("x");
    push_signed_decimal(&mut t, -42);
    push_signed_decimal(&mut t, i64::MIN);
    assert_eq!(t, "x-42-9223372036854775808");
    let mut u = String::new();
    push_decimal(&mut u, u64::MAX);
    assert_eq!(u, "18446744073709551615");
}

#[test]
fn text_splitting() {
    assert_eq!(find_char("héllo wörld", 'w'), Some(6));
    assert_eq!(find_char("abc", 'z'), None);
    assert_eq!(split_once_char("a=b=c", '='), Some(("a", "b=c")));
    assert_eq!(split_once_char("abc", '='), None);
    assert_eq!(split_char("a,,b,", ','), vec!["a", "", "b", ""]);
    assert_eq!(split_char("", ','), vec![""]);
}

#[test]
fn name_table_binds_each_name_once() {
    let mut t = NameTable::new();
    assert_eq!(t.len(), 0);
    t.insert_new("alice".to_string(), NamedEntity::User(1));
    t.insert_new("#chan".to_string(), NamedEntity::Nick(2));
    assert_eq!(t.len(), 2);
    assert!(t.contains_key("alice"));
    assert_eq!(t.get("#chan"), Some(NamedEntity::Nick(2)));
    assert_eq!(t.remove("alice"), Some(NamedEntity::User(1)));
    assert_eq!(t.remove("alice"), None);
    assert!(!t.contains_key("alice"));
    assert_eq!(t.len(), 1);
}
