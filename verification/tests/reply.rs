use rusty_ircd::irc::chan::ChanTopic;
use rusty_ircd::irc::reply::{rfind_space_index, split, Reply};

#[test]
fn welcome_line() {
    let r = Reply::Welcome("nick".to_string(), "user".to_string(), "host".to_string());
    assert_eq!(r.numeric(), 1);
    assert_eq!(r.reply_code(), "001");
    assert_eq!(
        r.format("irc.example.org", "nick"),
        ":irc.example.org 001 nick :Welcome to Rusty IRC Network nick!user@host"
    );
    assert_eq!(r.to_string(), "001 :Welcome to Rusty IRC Network nick!user@host");
}

#[test]
fn reply_without_body() {
    let r = Reply::NoReply;
    assert_eq!(r.numeric(), 300);
    assert!(r.body().is_none());
    assert_eq!(r.format("srv", "me"), ":srv 300 me");
    assert_eq!(r.to_string(), "300");
}

#[test]
fn list_and_topic_replies() {
    let topic = ChanTopic { text: "all about rust".to_string(), usermask: "a!b@c".to_string(), timestamp: 5 };
    let r = Reply::ListReply("#rust".to_string(), 42, Some(topic.clone()));
    assert_eq!(r.format("s", "n"), ":s 322 n #rust 42 :all about rust");
    assert_eq!(r.to_string(), "322 #rust 42 :all about rust");
    let r = Reply::ListReply("#empty".to_string(), 0, None);
    assert_eq!(r.body().as_deref(), Some("#empty 0"));
    let r = Reply::TopicSetBy("#rust".to_string(), "a!b@c".to_string(), -1234);
    assert_eq!(r.to_string(), "333 #rust a!b@c -1234");
    assert_eq!(r.format("s", "n"), ":s 333 n #rust a!b@c -1234");
    let r = Reply::NoTopic("#x".to_string());
    assert_eq!(r.format("s", "n"), ":s 331 n #x :No topic is set.");
    assert_eq!(r.to_string(), "331 #x :No topic is set");
    assert_eq!(Reply::ListStart.to_string(), "321 Chan Users :Topic");
    assert_eq!(Reply::ListStart.body().as_deref(), Some("Channel Users :Topic"));
    assert_eq!(Reply::EndofList.format("s", "n"), ":s 323 n :End of /LIST");
}

#[test]
fn names_reply_joins_nicks() {
    let r = Reply::NameReply("#c".to_string(), vec!["@op".to_string(), "+v".to_string(), "pl".to_string()]);
    assert_eq!(r.format("s", "n"), ":s 353 n #c :@op +v pl");
    assert_eq!(Reply::NameReply("#c".to_string(), vec![]).to_string(), "353 #c :");
    assert_eq!(Reply::EndofNames("#c".to_string()).to_string(), "366 #c :End of /NAMES list");
}

#[test]
fn other_codes() {
    assert_eq!(Reply::YourHost("s".to_string(), "v".to_string()).format("s", "n"), ":s 002 n :Your host is s, running version v");
    assert_eq!(Reply::Created("today".to_string()).to_string(), "003 :This server was created today");
    assert_eq!(
        Reply::MyInfo("s".to_string(), "v".to_string(), "i".to_string(), "o".to_string()).format("s", "n"),
        ":s 004 n :s v i o"
    );
    assert_eq!(Reply::Topic("#c".to_string(), "t".to_string()).numeric(), 332);
}

#[test]
fn short_lines_are_not_split() {
    let (a, b) = split(":srv 001 nick :hello");
    assert_eq!(a, ":srv 001 nick :hello");
    assert!(b.is_none());
    let long_without_colon = "x".repeat(600);
    let (a, b) = split(&long_without_colon);
    assert_eq!(a, long_without_colon);
    assert!(b.is_none());
}

#[test]
fn long_line_is_split_at_a_space() {
    let prefix = "srv 353 nick #chan";
    let words: Vec<String> = (0..120).map(|i| format!("n{:03}", i)).collect();
    let bulk = words.join(" ");
    let line = format!(":{} :{}", prefix, bulk);
    assert!(line.len() > 510);
    let (first, second) = split(&line);
    let second = second.unwrap();
    assert!(first.len() <= 510);
    assert!(first.starts_with(":srv 353 nick #chan :"));
    assert!(second.starts_with(":srv 353 nick #chan :"));
    let head = ":srv 353 nick #chan :";
    let rejoined = format!("{} {}", &first[head.len()..], &second[head.len()..]);
    assert_eq!(rejoined, bulk);
}

#[test]
fn long_line_without_spaces_is_cut_at_the_limit() {
    let bulk = "y".repeat(700);
    let line = format!(":srv :{}", bulk);
    let (first, second) = split(&line);
    assert_eq!(first.len(), 510);
    assert_eq!(first, format!(":srv :{}", "y".repeat(504)));
    assert_eq!(second.unwrap(), format!(":srv :{}", "y".repeat(196)));
}

#[test]
fn last_space_search() {
    let b = b"ab cd ef";
    assert_eq!(rfind_space_index(b, 7), Some(5));
    assert_eq!(rfind_space_index(b, 4), Some(2));
    assert_eq!(rfind_space_index(b, 1), None);
    assert_eq!(rfind_space_index(b" x", 0), None);
}
