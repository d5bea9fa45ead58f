use rusty_ircd::irc::chan::{ChanError, ChanFlags, ChanUser, Channel};
use rusty_ircd::irc::error::Error;
use rusty_ircd::irc::reply::Reply;
use rusty_ircd::names::NamedEntity;
use rusty_ircd::server::{Client, Core, User};

fn strings(words: &[&str]) -> Vec<String> {
    words.iter().map(|w| w.to_string()).collect()
}

/// A server with registered users `(id, nick)` whose hosts are `h<id>`.
fn server_with_users(users: &[(u64, &str)]) -> (Core, Vec<User>) {
    let mut core = Core::new("srv".to_string(), "v".to_string());
    let mut out = Vec::new();
    for (id, nick) in users {
        core.insert_client(Client::new(*id, format!("h{}", id)));
        core.nick(*id, &strings(&[nick]));
        core.user(*id, &strings(&[nick, "0", "*", nick]));
        out.push(User::new(*id, nick.to_string(), nick.to_string(), nick.to_string(), format!("h{}", id), "srv".to_string()));
    }
    (core, out)
}

#[test]
fn a_new_channel_is_empty() {
    let c = Channel::new("#rust");
    assert_eq!(c.get_name(), "#rust");
    assert!(c.is_empty());
    assert_eq!(c.get_n_users(), 0);
    assert!(c.get_topic().is_none());
    assert!(c.get_nick_list().is_empty());
}

#[test]
fn joining_replies_and_notifies_everyone() {
    let (core, users) = server_with_users(&[(1, "zed"), (2, "amy")]);
    let mut c = Channel::new("#rust");
    let (lines, replies) = c.add_user(&core, &users[0], ChanFlags::Op);
    assert_eq!(lines, vec![(1, ":zed!zed@h1 JOIN #rust".to_string())]);
    assert_eq!(replies.len(), 3);
    assert!(matches!(replies[0], Ok(Reply::NoReply)));
    assert!(matches!(&replies[1], Ok(Reply::NameReply(ch, ns)) if ch == "#rust" && *ns == strings(&["@zed"])));
    assert!(matches!(&replies[2], Ok(Reply::EndofNames(ch)) if ch == "#rust"));
    let (lines, replies) = c.add_user(&core, &users[1], ChanFlags::Plain);
    assert_eq!(
        lines,
        vec![(2, ":amy!amy@h2 JOIN #rust".to_string()), (1, ":amy!amy@h2 JOIN #rust".to_string())]
    );
    assert!(matches!(&replies[1], Ok(Reply::NameReply(_, ns)) if *ns == strings(&["amy", "@zed"])));
    assert_eq!(c.get_names_list(), strings(&["amy", "@zed"]));
    assert!(c.is_joined("zed"));
    assert!(!c.is_joined("@zed"));
    let (lines, replies) = c.add_user(&core, &users[1], ChanFlags::Op);
    assert!(lines.is_empty() && replies.is_empty(), "joining twice changes nothing");
}

#[test]
fn topic_is_part_of_the_join_replies() {
    let (core, users) = server_with_users(&[(1, "zed"), (2, "amy")]);
    let mut c = Channel::new("#t");
    c.add_user(&core, &users[0], ChanFlags::Op);
    c.set_topic("all things rust", &users[0]);
    let t = c.get_topic().unwrap();
    assert_eq!(t.text, "all things rust");
    assert_eq!(t.usermask, "zed!zed@h1");
    let (_, replies) = c.add_user(&core, &users[1], ChanFlags::Voice);
    assert_eq!(replies.len(), 5);
    assert!(matches!(&replies[1], Ok(Reply::Topic(ch, text)) if ch == "#t" && text == "all things rust"));
    assert!(matches!(&replies[2], Ok(Reply::TopicSetBy(ch, mask, _)) if ch == "#t" && mask == "zed!zed@h1"));
    assert_eq!(c.get_nick_list(), strings(&["+amy", "@zed"]));
}

#[test]
fn messages_go_to_the_others() {
    let (core, users) = server_with_users(&[(1, "a"), (2, "b"), (3, "c")]);
    let mut c = Channel::new("#m");
    for u in users.iter() {
        c.add_user(&core, u, ChanFlags::Plain);
    }
    let (lines, result) = c.send_msg(&core, &users[1], "PRIVMSG", "#m", "hi all");
    assert!(matches!(result, Ok(Reply::NoReply)));
    assert_eq!(
        lines,
        vec![(1, ":b!b@h2 PRIVMSG #m :hi all".to_string()), (3, ":b!b@h2 PRIVMSG #m :hi all".to_string())]
    );
    let (lines, _) = c.notify_quit(&core, &users[0], "#m", "bye");
    assert_eq!(lines.len(), 2);
    let outsider = User::new(9, "x".to_string(), "x".to_string(), "x".to_string(), "h9".to_string(), "srv".to_string());
    let (lines, result) = c.send_msg(&core, &outsider, "PRIVMSG", "#m", "hello?");
    assert!(lines.is_empty());
    assert!(matches!(result, Err(Error::CannotSendToChan(ref t)) if t == "#m"));
}

#[test]
fn stale_members_are_dropped() {
    let (mut core, users) = server_with_users(&[(1, "a"), (2, "b")]);
    let mut c = Channel::new("#s");
    c.add_user(&core, &users[0], ChanFlags::Plain);
    c.add_user(&core, &users[1], ChanFlags::Plain);
    core.remove_client(2);
    assert_eq!(c.gen_user_ptr_vec(&core), vec![1]);
    assert_eq!(c.get_nick_list(), strings(&["a"]));
}

#[test]
fn leaving_and_nick_changes() {
    let (mut core, users) = server_with_users(&[(1, "a"), (2, "b")]);
    core.insert_name("#l", NamedEntity::Nick(0)).unwrap();
    let mut c = Channel::new("#l");
    c.add_user(&core, &users[0], ChanFlags::Plain);
    c.add_user(&core, &users[1], ChanFlags::Voice);
    assert_eq!(c.update_nick("b", "bee"), Ok(()));
    assert_eq!(c.get_nick_list(), strings(&["a", "+b"]), "a bare key is put back as it was");
    assert_eq!(c.update_nick("nobody", "x"), Err(Error::NotOnChannel("#l".to_string())));
    let (lines, res) = c.rm_user(&mut core, &users[0], "later");
    assert!(res.is_ok());
    assert_eq!(lines[0], (1, ":a!a@h1 PART #l :later".to_string()));
    assert!(core.get_name("#l").is_some(), "the channel still has a member");
    let (_, res) = c.rm_user(&mut core, &users[0], "again");
    assert!(matches!(res, Err(ChanError::UnlinkFailed(ref n, ref ch)) if n == "a" && ch == "#l"));
    assert_eq!(c.rm_key("b"), Some(ChanUser { user_id: 2, chan_flags: ChanFlags::Voice }));
    assert!(c.is_empty());
}

#[test]
fn the_last_one_out_unbinds_the_channel() {
    let (mut core, users) = server_with_users(&[(1, "a")]);
    core.insert_name("#e", NamedEntity::Nick(0)).unwrap();
    let mut c = Channel::new("#e");
    c.add_user(&core, &users[0], ChanFlags::Op);
    assert!(!c.is_op(&users[0]), "is_op looks for the key `@<nick>`");
    let (lines, res) = c.rm_user(&mut core, &users[0], "");
    assert!(res.is_ok());
    assert_eq!(lines, vec![(1, ":a!a@h1 PART #e".to_string())]);
    assert!(c.is_empty());
    assert!(core.get_name("#e").is_none());
}

#[test]
fn keys_and_sorted_nicks() {
    let (core, users) = server_with_users(&[(1, "zed"), (2, "amy"), (3, "bob")]);
    let mut c = Channel::new("#k");
    c.add_user(&core, &users[0], ChanFlags::Op);
    c.add_user(&core, &users[1], ChanFlags::Voice);
    c.add_user(&core, &users[2], ChanFlags::Plain);
    assert_eq!(c.gen_sorted_nick_list(), strings(&["amy", "bob", "zed"]));
    assert_eq!(c.get_user_key("bob"), Some("bob".to_string()));
    assert_eq!(c.get_user_key("nobody"), None);
}

#[test]
fn badge_keys_follow_nick_changes() {
    let (core, _) = server_with_users(&[(1, "a"), (2, "b")]);
    let voiced = User::new(1, "+v".to_string(), "v".to_string(), "v".to_string(), "h1".to_string(), "srv".to_string());
    let opped = User::new(2, "@o".to_string(), "o".to_string(), "o".to_string(), "h2".to_string(), "srv".to_string());
    let mut c = Channel::new("#b");
    c.add_user(&core, &voiced, ChanFlags::Plain);
    c.add_user(&core, &opped, ChanFlags::Plain);
    assert_eq!(c.update_nick("v", "w"), Ok(()));
    assert_eq!(c.update_nick("o", "p"), Ok(()));
    assert_eq!(c.gen_sorted_nick_list(), strings(&["+w", "@p"]));
    assert_eq!(c.get_user_key("w"), Some("+w".to_string()));
    assert_eq!(c.get_user_key("v"), None);
}

#[test]
fn topics_carry_the_clock_reading() {
    let (core, users) = server_with_users(&[(1, "zed")]);
    let mut c = Channel::new("#t");
    c.add_user(&core, &users[0], ChanFlags::Op);
    c.set_topic_at("at noon", &users[0], Some(1_700_000_000));
    let t = c.get_topic().unwrap();
    assert_eq!(t.text, "at noon");
    assert_eq!(t.usermask, "zed!zed@h1");
    assert_eq!(t.timestamp, 1_700_000_000);
    c.set_topic_at("no clock", &users[0], None);
    assert_eq!(c.get_topic().unwrap().timestamp, 0);
    c.set_topic("now", &users[0]);
    assert!(c.get_topic().unwrap().timestamp > 1_700_000_000);
}
