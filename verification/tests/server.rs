use rusty_ircd::names::NamedEntity;
use rusty_ircd::server::{Client, Core, Message, User, CHAN_MODES, USER_MODES};

fn strings(words: &[&str]) -> Vec<String> {
    words.iter().map(|w| w.to_string()).collect()
}

fn command(name: &str, params: &[&str]) -> Message {
    Message { tags: None, prefix: None, command: name.to_string(), parameters: strings(params) }
}

fn server_with(ids: &[(u64, &str)]) -> Core {
    let mut core = Core::new("irc.example.org".to_string(), "rusty-ircd-0.3.0".to_string());
    for (id, host) in ids {
        core.insert_client(Client::new(*id, host.to_string()));
    }
    core
}

fn codes(replies: &[Message]) -> Vec<String> {
    replies.iter().map(|m| m.command.clone()).collect()
}

#[test]
fn new_server_is_empty() {
    let core = Core::new("irc.example.org".to_string(), "v1".to_string());
    assert_eq!(core.get_host(), "irc.example.org");
    assert_eq!(core.get_version(), "v1");
    assert_eq!(core.get_umodes(), USER_MODES);
    assert_eq!(core.get_chanmodes(), CHAN_MODES);
    assert_eq!(core.get_chanmodes(), "+o");
    assert_eq!(core.last_id(), 0);
    assert!(core.get_name("anyone").is_none());
    assert!(core.get_client(1).is_none());
}

#[test]
fn ids_count_up() {
    let mut core = server_with(&[]);
    assert_eq!(core.assign_id(), 1);
    assert_eq!(core.assign_id(), 2);
    assert_eq!(core.last_id(), 2);
}

#[test]
fn nick_then_user_registers_and_welcomes() {
    let mut core = server_with(&[(1, "host.one")]);
    let r = core.nick(1, &strings(&["alice"]));
    assert!(r.is_empty());
    assert!(!core.get_client(1).unwrap().is_registered());
    assert!(core.get_name("alice").is_none(), "a nick is bound only at registration");
    let r = core.user(1, &strings(&["al", "0", "*", "Alice Liddell"]));
    assert_eq!(codes(&r), vec!["001", "002", "003", "004"]);
    assert_eq!(r[0].parameters, strings(&["alice", "al", "host.one"]));
    assert_eq!(r[1].parameters, strings(&["irc.example.org", "rusty-ircd-0.3.0"]));
    assert_eq!(r[3].parameters, strings(&["irc.example.org", "rusty-ircd-0.3.0", "", "+o"]));
    assert_eq!(r[0].prefix.as_ref().unwrap().host.as_deref(), Some("irc.example.org"));
    assert!(core.get_client(1).unwrap().is_registered());
    assert_eq!(core.get_name("alice"), Some(NamedEntity::User(1)));
    assert_eq!(core.get_nick("alice"), Some(1));
}

#[test]
fn user_then_nick_registers_too() {
    let mut core = server_with(&[(7, "h7")]);
    assert!(core.user(7, &strings(&["bob", "0", "*", "Bob"])).is_empty());
    let r = core.nick(7, &strings(&["bob"]));
    assert_eq!(codes(&r), vec!["001", "002", "003", "004"]);
    assert_eq!(r[0].parameters, strings(&["bob", "bob", "h7"]));
    assert_eq!(core.get_nick("bob"), Some(7));
}

#[test]
fn refused_nicks() {
    let mut core = server_with(&[(1, "h1"), (2, "h2")]);
    let r = core.nick(1, &Vec::new());
    assert_eq!(codes(&r), vec!["461"]);
    assert_eq!(r[0].parameters, strings(&["NICK"]));
    let r = core.nick(1, &strings(&["1bad"]));
    assert_eq!(codes(&r), vec!["432"]);
    assert_eq!(r[0].parameters, strings(&["1bad"]));
    core.nick(1, &strings(&["carol"]));
    core.user(1, &strings(&["c", "0", "*", "C"]));
    let r = core.nick(2, &strings(&["carol"]));
    assert_eq!(codes(&r), vec!["433"]);
    assert!(!core.get_client(2).unwrap().is_registered());
}

#[test]
fn wrong_user_parameters_and_second_user() {
    let mut core = server_with(&[(1, "h1")]);
    let r = core.user(1, &strings(&["a", "b", "c"]));
    assert_eq!(codes(&r), vec!["461"]);
    assert_eq!(r[0].parameters, strings(&["USER"]));
    core.nick(1, &strings(&["dave"]));
    core.user(1, &strings(&["d", "0", "*", "D"]));
    let r = core.user(1, &strings(&["d", "0", "*", "D"]));
    assert_eq!(codes(&r), vec!["462"]);
    assert!(r[0].parameters.is_empty());
}

#[test]
fn nick_taken_while_waiting_for_user() {
    let mut core = server_with(&[(1, "h1"), (2, "h2")]);
    core.nick(1, &strings(&["erin"]));
    core.nick(2, &strings(&["erin"]));
    core.user(2, &strings(&["e2", "0", "*", "E2"]));
    assert_eq!(core.get_nick("erin"), Some(2));
    let r = core.user(1, &strings(&["e1", "0", "*", "E1"]));
    assert_eq!(codes(&r), vec!["433"]);
    assert_eq!(r[0].parameters, strings(&["erin"]));
    assert!(!core.get_client(1).unwrap().is_registered());
}

#[test]
fn second_nick_before_user_replaces_the_first() {
    let mut core = server_with(&[(1, "h1")]);
    core.nick(1, &strings(&["first"]));
    core.nick(1, &strings(&["second"]));
    let r = core.user(1, &strings(&["u", "0", "*", "U"]));
    assert_eq!(r[0].parameters, strings(&["second", "u", "h1"]));
    assert_eq!(core.get_nick("second"), Some(1));
    assert!(core.get_name("first").is_none());
}

#[test]
fn registered_user_changes_nick() {
    let mut core = server_with(&[(1, "h1")]);
    core.nick(1, &strings(&["old"]));
    core.user(1, &strings(&["u", "0", "*", "U"]));
    let r = core.nick(1, &strings(&["new"]));
    assert!(r.is_empty());
    assert_eq!(core.get_nick("new"), Some(1));
    assert!(core.get_name("old").is_none());
}

#[test]
fn commands_dispatch_by_name_in_any_case() {
    let mut core = server_with(&[(1, "h1"), (2, "h2")]);
    let out = core.command(1, command("privmsg", &["x", "hi"]));
    assert_eq!(codes(&out.replies), vec!["451"]);
    let out = core.command(1, command("WHOIS", &["x"]));
    assert_eq!(codes(&out.replies), vec!["421"]);
    assert_eq!(out.replies[0].parameters, strings(&["WHOIS"]));
    assert!(core.command(1, command("nick", &["frank"])).replies.is_empty());
    let out = core.command(1, command("User", &["f", "0", "*", "Frank"]));
    assert_eq!(codes(&out.replies), vec!["001", "002", "003", "004"]);
    let out = core.command(1, command("JOIN", &["#chan"]));
    assert_eq!(codes(&out.replies), vec!["421"]);
    assert_eq!(out.replies[0].parameters, strings(&["JOIN"]));
}

#[test]
fn privmsg_between_registered_users() {
    let mut core = server_with(&[(1, "h1"), (2, "h2")]);
    core.command(1, command("NICK", &["ann"]));
    core.command(1, command("USER", &["a", "0", "*", "Ann"]));
    core.command(2, command("NICK", &["ben"]));
    core.command(2, command("USER", &["b", "0", "*", "Ben"]));
    let out = core.command(1, command("PRIVMSG", &["ben,nobody", "hello", "there"]));
    assert_eq!(out.deliveries.len(), 1);
    let (to, m) = &out.deliveries[0];
    assert_eq!(*to, 2);
    assert_eq!(m.command, "PRIVMSG");
    assert_eq!(m.parameters, strings(&["hello there"]));
    let p = m.prefix.as_ref().unwrap();
    assert_eq!(p.nick.as_deref(), Some("ann"));
    assert_eq!(p.user.as_deref(), Some("a"));
    assert_eq!(p.host.as_deref(), Some("h1"));
    assert_eq!(m.to_line(), ":ann!a@h1 PRIVMSG :hello there");
    assert_eq!(codes(&out.replies), vec!["401"]);
    assert_eq!(out.replies[0].parameters, strings(&["nobody"]));
}

#[test]
fn notice_is_silent_on_errors() {
    let mut core = server_with(&[(1, "h1")]);
    core.command(1, command("NICK", &["ann"]));
    core.command(1, command("USER", &["a", "0", "*", "Ann"]));
    let out = core.command(1, command("NOTICE", &["ann"]));
    assert!(out.replies.is_empty());
    assert!(out.deliveries.is_empty());
    let out = core.command(1, command("PRIVMSG", &["ann"]));
    assert_eq!(codes(&out.replies), vec!["461"]);
    assert_eq!(out.replies[0].parameters, strings(&["PRIVMSG"]));
    let out = core.command(1, command("NOTICE", &["ann", "note"]));
    assert_eq!(out.deliveries.len(), 1);
    assert_eq!(out.deliveries[0].1.command, "NOTICE");
}

#[test]
fn messages_to_a_departed_user_are_dropped() {
    let mut core = server_with(&[(1, "h1"), (2, "h2")]);
    core.command(1, command("NICK", &["ann"]));
    core.command(1, command("USER", &["a", "0", "*", "Ann"]));
    core.command(2, command("NICK", &["ben"]));
    core.command(2, command("USER", &["b", "0", "*", "Ben"]));
    core.remove_client(2);
    let out = core.command(1, command("PRIVMSG", &["ben", "hi"]));
    assert!(out.deliveries.is_empty());
    assert!(out.replies.is_empty());
    assert_eq!(core.get_nick("ben"), Some(2), "the nick stays bound after the connection is gone");
}

#[test]
fn names_bind_once() {
    let mut core = server_with(&[]);
    assert!(core.insert_name("#chan", NamedEntity::Nick(3)).is_ok());
    assert_eq!(
        core.insert_name("#chan", NamedEntity::Nick(4)).err(),
        Some(rusty_ircd::irc::error::Error::HashCollision)
    );
    assert_eq!(core.get_name("#chan"), Some(NamedEntity::Nick(3)));
    assert_eq!(core.get_nick("#chan"), None);
    assert_eq!(core.remove_name("#chan"), Some(NamedEntity::Nick(3)));
    assert_eq!(core.remove_name("#chan"), None);
}

#[test]
fn register_and_nick_change_directly() {
    let mut core = server_with(&[(5, "h5")]);
    let mut u: User = core
        .register(5, "gina".to_string(), "g".to_string(), "Gina".to_string())
        .unwrap();
    assert_eq!(u.get_id(), 5);
    assert_eq!(u.get_server(), "irc.example.org");
    assert_eq!(u.get_host_string(), "h5");
    assert_eq!(u.get_realname(), "Gina");
    assert!(core.register(5, "gina".to_string(), "x".to_string(), "y".to_string()).is_none());
    assert!(core.register(6, "hal".to_string(), "x".to_string(), "y".to_string()).is_none());
    core.insert_name("taken", NamedEntity::Nick(9)).unwrap();
    assert!(core.try_nick_change(&mut u, "taken").is_err());
    assert_eq!(u.get_nick(), "gina");
    assert!(core.try_nick_change(&mut u, "gwen").is_ok());
    assert_eq!(u.get_nick(), "gwen");
    assert_eq!(core.get_nick("gwen"), Some(5));
    core.attempt_cleanup(&u);
    assert!(core.get_name("gwen").is_none());
    assert!(core.get_client(5).is_none());
}

#[test]
fn message_lines() {
    let core = server_with(&[]);
    let m = core.gen_reply(1, strings(&["nick", "Welcome home"]));
    assert_eq!(m.to_line(), ":irc.example.org 001 nick :Welcome home");
    let bare = command("PING", &[]);
    assert_eq!(bare.to_line(), "PING");
    let two = command("USER", &["a", "0", "*", "real name"]);
    assert_eq!(two.to_line(), "USER a 0 * :real name");
}

#[test]
fn nick_change_and_back() {
    let mut core = server_with(&[(1, "h1")]);
    core.nick(1, &strings(&["kim"]));
    core.user(1, &strings(&["k", "0", "*", "Kim"]));
    core.nick(1, &strings(&["kimmy"]));
    core.nick(1, &strings(&["kim"]));
    assert_eq!(core.get_nick("kim"), Some(1));
    assert!(core.get_name("kimmy").is_none());
}
