use rusty_ircd::irc::rfc_defs::{
    matches_allowed, matches_disallowed, valid_channel, valid_command, valid_host,
    valid_hostname, valid_ipv4_addr, valid_ipv6_addr, valid_key, valid_nick, valid_shortname, valid_user,
    valid_value, DIGIT, LETTER, LOWER, MAX_HOSTNAME_SIZE, MAX_NICKNAME_SIZE,
    MAX_SHORTNAME_SIZE, NOT_CHANSTRING, NOT_USER, SPECIAL, UPPER,
};

fn make_invert_set(char_set: &str) -> String {
    let mut inverted_set = String::new();
    for c in '\0'..(255 as char) {
        if !char_set.contains(c) {
            inverted_set.push(c);
        }
    }
    inverted_set
}

#[test]
fn match_allowed_or_disallowed_sets() {
    assert_eq!(matches_allowed("abc", "abcdef"), true);
    assert_eq!(matches_allowed("abc", "abdef"), false);
    assert_eq!(matches_disallowed("abc", "adef"), true);
    assert_eq!(matches_disallowed("abc", "def"), false);
}

#[test]
fn hostname_cases() {
    let mut max_short1 = String::new();
    let mut max_short2 = String::new();
    let mut max_short3 = String::new();
    let mut max_short4 = String::new();
    for _ in 0..MAX_SHORTNAME_SIZE {
        max_short1.push('a');
    }
    for _ in 0..MAX_SHORTNAME_SIZE {
        max_short2.push('b');
    }
    for _ in 0..MAX_SHORTNAME_SIZE {
        max_short3.push('c');
    }
    for _ in 0..MAX_SHORTNAME_SIZE - 2 {
        max_short4.push('d');
    }
    let max_len_hostname = format!(
        "{}.{}.{}.{}",
        max_short1, max_short2, max_short3, max_short4
    );
    max_short4.push('d');
    let over_max_len_hostname = format!(
        "{}.{}.{}.{}",
        max_short1, max_short2, max_short3, max_short4
    );
    assert!(!valid_hostname(""), "an empty string cannot be a hostname");
    assert!(
        !valid_hostname(&over_max_len_hostname),
        "hostname must be {} chars or less",
        MAX_HOSTNAME_SIZE
    );
    assert!(
        valid_hostname(&max_len_hostname),
        "{}-char hostname is valid",
        MAX_HOSTNAME_SIZE
    );
    assert!(
        !valid_hostname("foo..bar"),
        "hostname cannot contain two consecutive periods"
    );
    assert!(!valid_hostname(".bar"), "hostname cannot begin with a period");
    assert!(!valid_hostname("foo."), "hostname cannot begin with a period");
}

#[test]
fn shortname_cases() {
    let mut max_shortname = String::new();
    for _ in 0..MAX_SHORTNAME_SIZE {
        max_shortname.push('a');
    }
    let over_max_shortname = format!("{}{}", max_shortname, "1");
    assert!(!valid_shortname("-asdf"), "shortname may not begin with -");
    assert!(!valid_shortname("asdf-"), "shortname may not end with -");
    assert!(
        valid_shortname("as-df"),
        "shortname may contain - in a non-terminal position"
    );
    assert!(
        valid_shortname("1as7-df8"),
        "shortname may contain digits in any position"
    );
    assert!(
        valid_shortname(&max_shortname),
        "shortname may contain up to {} chars",
        MAX_SHORTNAME_SIZE
    );
    assert!(
        !valid_shortname(&over_max_shortname),
        "shortname may contain no more than {} chars",
        MAX_SHORTNAME_SIZE
    );
    for invalid_char in make_invert_set(&format!("{}{}-", LOWER, DIGIT)).chars() {
        assert!(
            !valid_shortname(&format!("foo-{}bar", invalid_char)),
            "shortname cannot contain {}",
            invalid_char
        );
    }
    assert!(
        !valid_shortname("foo-🤔bar"),
        "shortname may not contain emojis such as 🤔 or other UTF-8"
    );
}

#[test]
fn command_cases() {
    assert!(valid_command("100"), "3-digit number is valid command string");
    assert!(!valid_command("1000"), "4-digit number is invalid command string");
    assert!(!valid_command("1000"), "4-digit number is invalid command string");
    assert!(valid_command("asdf"), "alphabetical is valid command");
    assert!(!valid_command("asd12"), "can't mix letters and numbers");
    assert!(valid_command("abCD"), "any case is fine");
}

#[test]
fn tagval_cases() {
    assert!(valid_value("foobar"), "a word is valid");
    assert!(!valid_value("foo bar"), "space is not allowed");
    assert!(!valid_value("foo;bar"), "; is not allowed");
    assert!(valid_value("foo😁bar"), "emoji is allowed");
}

#[test]
fn user_cases() {
    assert!(
        valid_user("\\kekF00rifk{}"),
        "user string may contain all kinds of weird chars"
    );
    assert!(!valid_user(""), "user string may not be empty");
    for invalid_char in NOT_USER.chars() {
        assert!(
            !valid_user(&format!("lol{}", invalid_char)),
            "user string may not contain {}",
            invalid_char
        );
    }
    assert!(
        valid_user("foo-🤔bar"),
        "user string may contain emojis/other unicode"
    );
    for valid_char in make_invert_set(NOT_USER).chars() {
        assert!(
            valid_user(&format!("lol{}", valid_char)),
            "user string may contain {}",
            valid_char
        );
    }
}

#[test]
fn chan_string_cases() {
    assert!(!valid_channel(""), "channel cannot be an empty string");
    assert!(!valid_channel("#"), "channel cannot be fewer than 2 chars long");
    assert!(
        valid_channel("!123456"),
        "! chan of may have 6 ore more digits after the"
    );
    assert!(
        !valid_channel("!12345"),
        "! chans must contain both channel ID (5 chars) and chanstring"
    );
    assert!(
        valid_channel("!123ABabc"),
        "! chans contain uppercase letters in the chan ID"
    );
    assert!(
        !valid_channel("!123Ababc"),
        "! chans may not contain lowercase letters in the chan ID"
    );
    for invalid_char in make_invert_set("&+#!").chars() {
        assert!(
            !valid_channel(&format!("{}ABC12abc", invalid_char)),
            "{} may not be first char of channel name",
            invalid_char
        );
    }
    for invalid_char in make_invert_set(&format!("{}{}", UPPER, DIGIT)).chars() {
        assert!(
            !valid_channel(&format!("!{}", invalid_char)),
            "! chans may not contain {}",
            invalid_char
        );
    }
    for invalid_char in NOT_CHANSTRING.chars() {
        assert!(
            !valid_channel(&format!("#{}", invalid_char)),
            "[#+&] chans may not contain {}",
            invalid_char
        );
    }
    assert!(valid_channel("#foobar"), "#foobar is an allowed channel name");
    assert!(valid_channel("&foo:bar"), "&foo:bar is an allowed channel name");
    assert!(
        !valid_channel("&foo:bar:baz"),
        "channel may not contain two : separators"
    );
    assert!(
        valid_channel("!123ABfoo:bar"),
        "! channel may also contain a : separator for the chan strings"
    );
    assert!(
        !valid_channel("&foo:"),
        "channel may not contain an empty string after a : delimiter"
    );
    assert!(
        !valid_channel("#fooooooooooooooooooooooooooooooooooooooooooooooooo"),
        "channel name may not contain more than 50 chars"
    );
}

#[test]
fn key_cases() {
    assert!(!valid_key("asd{f"), "key cannot contain a curly brace char");
    assert!(valid_key("asd/f"), "key can contain /");
    assert!(
        !valid_key("asd../f"),
        "key can contain / but must be valid host before"
    );
    assert!(valid_key("asdf1234-"), "key can be alphanumeric plus hyphen");
    assert!(
        valid_key("+asdf1234-"),
        "key can be alphanumeric plus hyphen, can start with +"
    );
    assert!(
        !valid_key("asd+f1234-"),
        "key can be alphanumeric plus hyphen, cannot contain + after the first char"
    );
}

#[test]
fn nick_cases() {
    assert!(
        !valid_nick("abcdefghij"),
        "max nickname lengthis {}",
        MAX_NICKNAME_SIZE
    );
    assert!(valid_nick("abcdefghi"), "a-z is allowed in nicks");
    assert!(valid_nick("abcdefghi"), "a-z is allowed in nicks");
    for invalid_char in make_invert_set(&format!("{}{}", LETTER, SPECIAL)).chars() {
        assert!(
            !valid_nick(&format!("{}ABCabc", invalid_char)),
            "{} may not be first char of nick name",
            invalid_char
        );
    }
    for valid_char in format!("{}{}", LETTER, SPECIAL).chars() {
        assert!(
            valid_nick(&format!("{}ABCabc", valid_char)),
            "{} may be first char of nick name",
            valid_char
        );
    }
    for invalid_char in make_invert_set(&format!("{}{}{}-", LETTER, SPECIAL, DIGIT)).chars() {
        assert!(
            !valid_nick(&format!("a{}abc", invalid_char)),
            "{} may not be a non-first char of nick name",
            invalid_char
        );
    }
    for valid_char in format!("{}{}{}-", LETTER, SPECIAL, DIGIT).chars() {
        assert!(
            valid_nick(&format!("a{}abc", valid_char)),
            "{} may be a non-first char of nick name",
            valid_char
        );
    }
}

#[test]
fn dotted_quads_are_hosts_only_when_each_part_is_an_octet() {
    assert!(valid_ipv4_addr("127.0.0.1"));
    assert!(valid_ipv4_addr("255.255.255.255"));
    assert!(!valid_ipv4_addr("256.0.0.1"));
    assert!(!valid_ipv4_addr("1.2.3"));
    assert!(!valid_ipv4_addr("1.2.3.4.5"));
    assert!(!valid_ipv4_addr("1..3.4"));
    assert!(valid_host("10.0.0.1"));
    assert!(valid_host("irc.example.org"));
    assert!(!valid_host("irc example"));
}

#[test]
fn ipv6_addresses_in_their_text_forms() {
    for ok in [
        "::",
        "::1",
        "1::",
        "fe80::1",
        "2001:DB8:0:0:8:800:200C:417A",
        "1:2:3:4:5:6:7:8",
        "1:2:3:4:5:6:7::",
        "::2:3:4:5:6:7:8",
        "1:2:3:4:5:6:1.2.3.4",
        "::ffff:10.0.0.1",
        "1:2:3:4:5::1.2.3.4",
        "abcd:ef01::",
    ] {
        assert!(valid_ipv6_addr(ok), "{}", ok);
    }
    for bad in [
        "",
        ":",
        ":::",
        "1:2:3:4:5:6:7",
        "1:2:3:4:5:6:7:8:9",
        "1:2:3:4:5:6:7:8::",
        "::1:2:3:4:5:6:7:8",
        "1::2::3",
        "12345::",
        "g::1",
        "1.2.3.4::",
        "1:2:3:4:5:6::1.2.3.4",
        "1:2:3:4:5:6:7:1.2.3.4",
        "::1.2.3.04",
        "::1.2.3.256",
        "::1:",
        ":1:2:3:4:5:6:7:8",
        "::1%eth0",
        "10.0.0.1",
        "localhost",
    ] {
        assert!(!valid_ipv6_addr(bad), "{}", bad);
    }
}

#[test]
fn shortest_and_edge_names() {
    assert!(valid_shortname("a"));
    assert!(!valid_shortname(""));
    assert!(valid_hostname("a.b"));
    assert!(!valid_command(""));
    assert!(!valid_command("10"));
    assert!(!valid_user("a@b"));
    assert!(!valid_nick(""));
    assert!(valid_nick("a"));
    assert!(!valid_key(""));
    assert!(valid_key("+"));
    assert!(valid_key("example.com/foo"));
    assert!(!valid_key("+example..com/foo"));
    assert!(valid_value(""));
}
