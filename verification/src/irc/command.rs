//! The commands that the server understands.
use crate::irc::error::{Error, ErrorView};
use crate::text::{owned, push_char};
use vstd::prelude::*;
use vstd::string::*;

verus! {

/// A command that the server knows.
#[derive(Debug, Clone, Copy, PartialEq, Eq, Structural)]
pub enum Command {
    Nick,
    User,
    Privmsg,
    Notice,
    Join,
    Part,
    Topic,
    List,
}

/// ASCII lower-case letters made upper-case, everything else kept.
pub open spec fn ascii_upper(s: Seq<char>) -> Seq<char> {
    s.map_values(|c: char| if 'a' <= c && c <= 'z' { ((c as u32) - 32) as char } else { c })
}

/// The command that a (case-insensitive) name denotes.
pub open spec fn spec_command(s: Seq<char>) -> Option<Command> {
    let u = ascii_upper(s);
    if u == "NICK"@ {
        Some(Command::Nick)
    } else if u == "USER"@ {
        Some(Command::User)
    } else if u == "PRIVMSG"@ {
        Some(Command::Privmsg)
    } else if u == "NOTICE"@ {
        Some(Command::Notice)
    } else if u == "JOIN"@ {
        Some(Command::Join)
    } else if u == "PART"@ {
        Some(Command::Part)
    } else if u == "TOPIC"@ {
        Some(Command::Topic)
    } else if u == "LIST"@ {
        Some(Command::List)
    } else {
        None
    }
}

/// `str::to_ascii_uppercase`.
pub fn to_ascii_uppercase(s: &str) -> (res: String)
    ensures
        res@ == ascii_upper(s@),
{
    let n = s.unicode_len();
    let mut out = String::new();
    let mut i: usize = 0;
    while i < n
        invariant
            n == s@.len(),
            i <= n,
            out@ == ascii_upper(s@.subrange(0, i as int)),
        decreases n - i,
    {
        let c = s.get_char(i);
        let u = if 'a' <= c && c <= 'z' {
            let v = ((c as u32) - 32) as u8;
            v as char
        } else {
            c
        };
        push_char(&mut out, u);
        i += 1;
        assert(out@ =~= ascii_upper(s@.subrange(0, i as int)));
    }
    assert(s@.subrange(0, n as int) =~= s@);
    out
}

impl Command {
    /// The command named by `s` in any letter case, or `UnknownCommand(s)`.
    pub fn from_name(s: &str) -> (res: Result<Command, Error>)
        ensures
            match res {
                Ok(c) => spec_command(s@) == Some(c),
                Err(e) => spec_command(s@) is None && e@ == ErrorView::UnknownCommand(s@),
            },
    {
        let upper = to_ascii_uppercase(s);
        if upper == owned("NICK") {
            Ok(Command::Nick)
        } else if upper == owned("USER") {
            Ok(Command::User)
        } else if upper == owned("PRIVMSG") {
            Ok(Command::Privmsg)
        } else if upper == owned("NOTICE") {
            Ok(Command::Notice)
        } else if upper == owned("JOIN") {
            Ok(Command::Join)
        } else if upper == owned("PART") {
            Ok(Command::Part)
        } else if upper == owned("TOPIC") {
            Ok(Command::Topic)
        } else if upper == owned("LIST") {
            Ok(Command::List)
        } else {
            Err(Error::UnknownCommand(owned(s)))
        }
    }
}

impl std::str::FromStr for Command {
    type Err = Error;

    fn from_str(s: &str) -> (res: Result<Command, Error>)
        ensures
            match res {
                Ok(c) => spec_command(s@) == Some(c),
                Err(e) => spec_command(s@) is None && e@ == ErrorView::UnknownCommand(s@),
            },
    {
        Command::from_name(s)
    }
}

} // verus!
