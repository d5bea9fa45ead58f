//! A reader for protocol lines without tags:
//! `[":" prefix SPACE] command [params]`, where the prefix's host is told
//! apart as an IPv4 address, an IPv6 address or a hostname.
use crate::irc::rfc_defs::{
    spec_valid_hostname, spec_valid_ipv4_addr, spec_valid_ipv6_addr, spec_valid_nick, spec_valid_user,
    valid_hostname, valid_ipv4_addr, valid_ipv6_addr, valid_nick, valid_user,
};
use crate::irc::rfc_defs::MAX_MSG_PARAMS;
use crate::text::{owned, split_once, split_once_char};
use vstd::prelude::*;
use vstd::string::*;

verus! {

/// Why a line could not be read.
#[derive(Debug)]
pub enum ParseError {
    NoCommand,
    InvalidCommand(String),
    InvalidNick(String),
    InvalidUser(String),
    InvalidHost(String),
    EmptyMessage,
    EmptyName,
    EmptyNick,
    EmptyHost,
    EmptyUser,
}

/// A host and the kind of text it is.
#[derive(Debug)]
pub enum HostType {
    HostName(String),
    HostAddrV4(String),
    HostAddrV6(String),
}

/// The source of a line, as far as it can be told.
#[derive(Debug)]
pub enum MsgPrefix {
    /// valid as a nick and as a host
    Name(String),
    /// valid as a nick only
    Nick(String),
    NickHost(String, HostType),
    NickUserHost(String, String, HostType),
    Host(HostType),
}

/// A line that was read.
#[derive(Debug)]
pub struct ParsedMsg {
    pub opt_prefix: Option<MsgPrefix>,
    pub command: String,
    pub opt_params: Vec<String>,
}

// ---------------------------------------------------------------------------
// the values, as text

pub enum ParseErrorView {
    NoCommand,
    InvalidCommand(Seq<char>),
    InvalidNick(Seq<char>),
    InvalidUser(Seq<char>),
    InvalidHost(Seq<char>),
    EmptyMessage,
    EmptyName,
    EmptyNick,
    EmptyHost,
    EmptyUser,
}

pub enum HostTypeView {
    HostName(Seq<char>),
    HostAddrV4(Seq<char>),
    HostAddrV6(Seq<char>),
}

pub enum MsgPrefixView {
    Name(Seq<char>),
    Nick(Seq<char>),
    NickHost(Seq<char>, HostTypeView),
    NickUserHost(Seq<char>, Seq<char>, HostTypeView),
    Host(HostTypeView),
}

pub struct ParsedMsgView {
    pub prefix: Option<MsgPrefixView>,
    pub command: Seq<char>,
    pub params: Seq<Seq<char>>,
}

impl View for ParseError {
    type V = ParseErrorView;

    open spec fn view(&self) -> ParseErrorView {
        match self {
            ParseError::NoCommand => ParseErrorView::NoCommand,
            ParseError::InvalidCommand(s) => ParseErrorView::InvalidCommand(s@),
            ParseError::InvalidNick(s) => ParseErrorView::InvalidNick(s@),
            ParseError::InvalidUser(s) => ParseErrorView::InvalidUser(s@),
            ParseError::InvalidHost(s) => ParseErrorView::InvalidHost(s@),
            ParseError::EmptyMessage => ParseErrorView::EmptyMessage,
            ParseError::EmptyName => ParseErrorView::EmptyName,
            ParseError::EmptyNick => ParseErrorView::EmptyNick,
            ParseError::EmptyHost => ParseErrorView::EmptyHost,
            ParseError::EmptyUser => ParseErrorView::EmptyUser,
        }
    }
}

impl View for HostType {
    type V = HostTypeView;

    open spec fn view(&self) -> HostTypeView {
        match self {
            HostType::HostName(s) => HostTypeView::HostName(s@),
            HostType::HostAddrV4(s) => HostTypeView::HostAddrV4(s@),
            HostType::HostAddrV6(s) => HostTypeView::HostAddrV6(s@),
        }
    }
}

impl View for MsgPrefix {
    type V = MsgPrefixView;

    open spec fn view(&self) -> MsgPrefixView {
        match self {
            MsgPrefix::Name(s) => MsgPrefixView::Name(s@),
            MsgPrefix::Nick(s) => MsgPrefixView::Nick(s@),
            MsgPrefix::NickHost(n, h) => MsgPrefixView::NickHost(n@, h@),
            MsgPrefix::NickUserHost(n, u, h) => MsgPrefixView::NickUserHost(n@, u@, h@),
            MsgPrefix::Host(h) => MsgPrefixView::Host(h@),
        }
    }
}

impl View for ParsedMsg {
    type V = ParsedMsgView;

    open spec fn view(&self) -> ParsedMsgView {
        ParsedMsgView {
            prefix: match self.opt_prefix {
                Some(p) => Some(p@),
                None => None,
            },
            command: self.command@,
            params: self.opt_params@.map_values(|s: String| s@),
        }
    }
}

impl ParseError {
    /// A sentence that describes the error.
    pub fn to_string(&self) -> (res: String)
        ensures
            res@ == match self {
                ParseError::EmptyName => "Empty name (nick/host) field `: CMD`"@,
                ParseError::EmptyNick => "Empty nick field `:!user@host CMD`"@,
                ParseError::EmptyUser => "Empty user field `:nick!@host CMD`"@,
                ParseError::EmptyHost => "Empty host field `:nick!user@ CMD`"@,
                ParseError::EmptyMessage => "Empty message"@,
                ParseError::NoCommand => "No command given"@,
                ParseError::InvalidCommand(cmd) => "Invalid command string: "@ + cmd@,
                ParseError::InvalidNick(nick) => "Invalid nick: "@ + nick@,
                ParseError::InvalidUser(user) => "Invalid user string: "@ + user@,
                ParseError::InvalidHost(host) => "Invalid host string: "@ + host@,
            },
    {
        let mut s = String::new();
        match self {
            ParseError::EmptyName => s.append("Empty name (nick/host) field `: CMD`"),
            ParseError::EmptyNick => s.append("Empty nick field `:!user@host CMD`"),
            ParseError::EmptyUser => s.append("Empty user field `:nick!@host CMD`"),
            ParseError::EmptyHost => s.append("Empty host field `:nick!user@ CMD`"),
            ParseError::EmptyMessage => s.append("Empty message"),
            ParseError::NoCommand => s.append("No command given"),
            ParseError::InvalidCommand(cmd) => {
                s.append("Invalid command string: ");
                s.append(cmd.as_str());
            },
            ParseError::InvalidNick(nick) => {
                s.append("Invalid nick: ");
                s.append(nick.as_str());
            },
            ParseError::InvalidUser(user) => {
                s.append("Invalid user string: ");
                s.append(user.as_str());
            },
            ParseError::InvalidHost(host) => {
                s.append("Invalid host string: ");
                s.append(host.as_str());
            },
        }
        s
    }
}

// ---------------------------------------------------------------------------
// the reading, as mathematics

/// The kind of a host: an IPv4 address, else an IPv6 address, else a
/// hostname.
pub open spec fn spec_parse_host(h: Seq<char>) -> Result<HostTypeView, ParseErrorView> {
    if spec_valid_ipv4_addr(h) {
        Ok(HostTypeView::HostAddrV4(h))
    } else if spec_valid_ipv6_addr(h) {
        Ok(HostTypeView::HostAddrV6(h))
    } else if spec_valid_hostname(h) {
        Ok(HostTypeView::HostName(h))
    } else {
        Err(ParseErrorView::InvalidHost(h))
    }
}

/// What a prefix is.
pub open spec fn spec_parse_prefix(msg: Seq<char>) -> Result<
    MsgPrefixView,
    ParseErrorView,
> {
    let name = match split_once(msg, '@') {
        Some((n, _)) => n,
        None => msg,
    };
    if name.len() == 0 {
        Err(ParseErrorView::EmptyName)
    } else {
        match split_once(msg, '@') {
            Some((_, host)) => if host.len() == 0 {
                Err(ParseErrorView::EmptyHost)
            } else {
                match split_once(name, '!') {
                    Some((nick, user)) => if nick.len() == 0 {
                        Err(ParseErrorView::EmptyNick)
                    } else if user.len() == 0 {
                        Err(ParseErrorView::EmptyUser)
                    } else if !spec_valid_user(user) {
                        Err(ParseErrorView::InvalidUser(user))
                    } else if !spec_valid_nick(nick) {
                        Err(ParseErrorView::InvalidNick(nick))
                    } else {
                        match spec_parse_host(host) {
                            Ok(h) => Ok(MsgPrefixView::NickUserHost(nick, user, h)),
                            Err(e) => Err(e),
                        }
                    },
                    None => if !spec_valid_nick(name) {
                        Err(ParseErrorView::InvalidNick(name))
                    } else {
                        match spec_parse_host(host) {
                            Ok(h) => Ok(MsgPrefixView::NickHost(name, h)),
                            Err(e) => Err(e),
                        }
                    },
                }
            },
            None => if !spec_valid_nick(name) {
                match spec_parse_host(name) {
                    Ok(h) => Ok(MsgPrefixView::Host(h)),
                    Err(e) => Err(e),
                }
            } else {
                match spec_parse_host(name) {
                    Ok(_) => Ok(MsgPrefixView::Name(name)),
                    Err(_) => Ok(MsgPrefixView::Nick(name)),
                }
            },
        }
    }
}

/// A character that `&s[..1]` can cut after: one that takes one byte.
pub open spec fn one_byte(c: char) -> bool {
    (c as u32) < 0x80
}

/// The words of a line from argument `n_args` on: split at spaces, a word
/// after ` :` or the fifteenth parameter taking the rest of the line. `None`
/// where a word after a space starts with a character of more than one
/// byte, which the reader cannot cut.
pub open spec fn spec_params(line: Seq<char>, n_args: nat) -> Option<Seq<Seq<char>>>
    decreases line.len(),
{
    match split_once(line, ' ') {
        None => Some(seq![line]),
        Some((w, r)) => {
            proof {
                crate::text::lemma_index_of(line, ' ');
            }
            if r.len() == 0 {
                Some(seq![w])
            } else if !one_byte(r[0]) {
                None
            } else if r[0] == ':' {
                Some(seq![w, r.drop_first()])
            } else if n_args + 1 >= MAX_MSG_PARAMS {
                Some(seq![w, r])
            } else {
                match spec_params(r, n_args + 1) {
                    Some(ps) => Some(seq![w] + ps),
                    None => None,
                }
            }
        },
    }
}

/// The command and parameters of a line's body.
pub open spec fn spec_body(prefix: Option<MsgPrefixView>, line: Seq<char>) -> Option<
    Result<ParsedMsgView, ParseErrorView>,
> {
    match spec_params(line, 0) {
        None => None,
        Some(ps) => Some(
            Ok(ParsedMsgView { prefix, command: ps[0], params: ps.drop_first() }),
        ),
    }
}

/// What `parse_message` gives for a line; `None` where the reader
/// cannot cut the text (a word, or the line, starting with a character of
/// more than one byte where a `:` is looked for).
pub open spec fn spec_parse_message(s: Seq<char>) -> Option<
    Result<ParsedMsgView, ParseErrorView>,
> {
    if s.len() == 0 {
        Some(Err(ParseErrorView::EmptyMessage))
    } else if !one_byte(s[0]) {
        None
    } else if s[0] == ':' {
        match split_once(s, ' ') {
            None => Some(Err(ParseErrorView::NoCommand)),
            Some((tok, rest)) => match spec_parse_prefix(tok.drop_first()) {
                Err(e) => Some(Err(e)),
                Ok(p) => spec_body(Some(p), rest),
            },
        }
    } else {
        spec_body(None, s)
    }
}

// ---------------------------------------------------------------------------
// the reading, executable

/// Tells the kind of a host.
pub fn parse_host(host_string: &str) -> (res: Result<HostType, ParseError>)
    ensures
        match res {
            Ok(h) => spec_parse_host(host_string@) == Ok::<HostTypeView, ParseErrorView>(h@),
            Err(e) => spec_parse_host(host_string@) == Err::<HostTypeView, ParseErrorView>(e@),
        },
{
    let host = owned(host_string);
    if valid_ipv4_addr(host.as_str()) {
        Ok(HostType::HostAddrV4(host))
    } else if valid_ipv6_addr(host.as_str()) {
        Ok(HostType::HostAddrV6(host))
    } else if valid_hostname(host.as_str()) {
        Ok(HostType::HostName(host))
    } else {
        Err(ParseError::InvalidHost(host))
    }
}

/// Reads the prefix of a line (without its leading space).
fn parse_prefix(msg: &str) -> (res: Result<MsgPrefix, ParseError>)
    ensures
        match res {
            Ok(p) => spec_parse_prefix(msg@) == Ok::<MsgPrefixView, ParseErrorView>(p@),
            Err(e) => spec_parse_prefix(msg@) == Err::<MsgPrefixView, ParseErrorView>(e@),
        },
{
    let first_split = split_once_char(msg, '@');
    let name: &str = match first_split {
        Some((n, _)) => n,
        None => msg,
    };
    if name.unicode_len() == 0 {
        return Err(ParseError::EmptyName);
    }
    match first_split {
        Some((_, host)) => {
            if host.unicode_len() == 0 {
                return Err(ParseError::EmptyHost);
            }
            match split_once_char(name, '!') {
                Some((n, u)) => {
                    let nick = owned(n);
                    let user = owned(u);
                    if nick.as_str().unicode_len() == 0 {
                        return Err(ParseError::EmptyNick);
                    }
                    if user.as_str().unicode_len() == 0 {
                        return Err(ParseError::EmptyUser);
                    }
                    if !valid_user(user.as_str()) {
                        Err(ParseError::InvalidUser(user))
                    } else if !valid_nick(nick.as_str()) {
                        Err(ParseError::InvalidNick(nick))
                    } else {
                        match parse_host(host) {
                            Ok(h) => Ok(MsgPrefix::NickUserHost(nick, user, h)),
                            Err(e) => Err(e),
                        }
                    }
                },
                None => {
                    let nick = owned(name);
                    if !valid_nick(nick.as_str()) {
                        Err(ParseError::InvalidNick(nick))
                    } else {
                        match parse_host(host) {
                            Ok(h) => Ok(MsgPrefix::NickHost(nick, h)),
                            Err(e) => Err(e),
                        }
                    }
                },
            }
        },
        None => {
            if !valid_nick(name) {
                match parse_host(name) {
                    Ok(h) => Ok(MsgPrefix::Host(h)),
                    Err(e) => Err(e),
                }
            } else {
                match parse_host(name) {
                    Ok(_) => Ok(MsgPrefix::Name(owned(name))),
                    Err(_) => Ok(MsgPrefix::Nick(owned(name))),
                }
            }
        },
    }
}

/// The words of a line's body (see `spec_params`).
fn read_params(line: &str) -> (res: Vec<String>)
    requires
        spec_params(line@, 0) is Some,
    ensures
        spec_params(line@, 0) == Some(res@.map_values(|s: String| s@)),
{
    let mut params: Vec<String> = Vec::new();
    let mut rest: &str = line;
    let mut n_args: usize = 0;
    loop
        invariant
            n_args < MAX_MSG_PARAMS,
            spec_params(rest@, n_args as nat) is Some,
            spec_params(line@, 0) == Some(params@.map_values(|s: String| s@) + spec_params(
                rest@,
                n_args as nat,
            )->0),
        decreases rest@.len(),
    {
        proof {
            crate::text::lemma_index_of(rest@, ' ');
        }
        let ghost before = params@.map_values(|s: String| s@);
        let ghost old_rest = rest@;
        match split_once_char(rest, ' ') {
            None => {
                params.push(owned(rest));
                assert(params@.map_values(|s: String| s@) =~= before + seq![old_rest]);
                return params;
            },
            Some((w, r)) => {
                params.push(owned(w));
                assert(params@.map_values(|s: String| s@) =~= before + seq![w@]);
                let n = r.unicode_len();
                if n == 0 {
                    return params;
                }
                let c = r.get_char(0);
                if c == ':' {
                    params.push(owned(r.substring_char(1, n)));
                    assert(params@.map_values(|s: String| s@) =~= before + seq![w@, r@.drop_first()]);
                    return params;
                } else if n_args + 1 >= MAX_MSG_PARAMS {
                    params.push(owned(r));
                    assert(params@.map_values(|s: String| s@) =~= before + seq![w@, r@]);
                    return params;
                }
                assert(before + (seq![w@] + spec_params(r@, (n_args + 1) as nat)->0) =~= params@.map_values(|s: String| s@) + spec_params(r@, (n_args + 1) as nat)->0);
                rest = r;
                n_args = n_args + 1;
            },
        }
    }
}

/// Reads a line.
pub fn parse_message(message: &str) -> (res: Result<ParsedMsg, ParseError>)
    requires
        spec_parse_message(message@) is Some,
    ensures
        match res {
            Ok(m) => spec_parse_message(message@) == Some(
                Ok::<ParsedMsgView, ParseErrorView>(m@),
            ),
            Err(e) => spec_parse_message(message@) == Some(
                Err::<ParsedMsgView, ParseErrorView>(e@),
            ),
        },
{
    let n = message.unicode_len();
    if n == 0 {
        return Err(ParseError::EmptyMessage);
    }
    let mut line: &str = message;
    proof {
        crate::text::lemma_index_of(message@, ' ');
    }
    let opt_prefix = if message.get_char(0) == ':' {
        match split_once_char(line, ' ') {
            None => {
                return Err(ParseError::NoCommand);
            },
            Some((tok, rest)) => {
                line = rest;
                let bare = tok.substring_char(1, tok.unicode_len());
                assert(bare@ =~= tok@.drop_first());
                match parse_prefix(bare) {
                    Ok(p) => Some(p),
                    Err(e) => {
                        return Err(e);
                    },
                }
            },
        }
    } else {
        None
    };
    let mut params = read_params(line);
    let command = params.remove(0);
    let ghost ps = spec_params(line@, 0)->0;
    assert(params@.map_values(|s: String| s@) =~= ps.drop_first());
    Ok(ParsedMsg { opt_prefix, command, opt_params: params })
}

/// Whether `parse_message` can read the line (it cannot cut a word that
/// starts with a character of more than one byte).
pub fn parse_message_defined(message: &str) -> (res: bool)
    ensures
        res == spec_parse_message(message@) is Some,
{
    let n = message.unicode_len();
    if n == 0 {
        return true;
    }
    let c = message.get_char(0);
    if (c as u32) >= 0x80 {
        return false;
    }
    proof {
        crate::text::lemma_index_of(message@, ' ');
    }
    let line = if c == ':' {
        match split_once_char(message, ' ') {
            None => {
                return true;
            },
            Some((tok, rest)) => {
                let bare = tok.substring_char(1, tok.unicode_len());
                assert(bare@ =~= tok@.drop_first());
                match parse_prefix(bare) {
                    Ok(_) => rest,
                    Err(_) => {
                        return true;
                    },
                }
            },
        }
    } else {
        message
    };
    params_defined(line)
}

fn params_defined(line: &str) -> (res: bool)
    ensures
        res == spec_params(line@, 0) is Some,
{
    let mut rest: &str = line;
    let mut n_args: usize = 0;
    loop
        invariant
            n_args < MAX_MSG_PARAMS,
            (spec_params(line@, 0) is Some) == (spec_params(rest@, n_args as nat) is Some),
        decreases rest@.len(),
    {
        proof {
            crate::text::lemma_index_of(rest@, ' ');
        }
        match split_once_char(rest, ' ') {
            None => {
                return true;
            },
            Some((_, r)) => {
                let n = r.unicode_len();
                if n == 0 {
                    return true;
                }
                let c = r.get_char(0);
                if (c as u32) >= 0x80 {
                    return false;
                }
                if c == ':' || n_args + 1 >= MAX_MSG_PARAMS {
                    return true;
                }
                rest = r;
                n_args = n_args + 1;
            },
        }
    }
}

/// The text of a host, whatever its kind.
pub open spec fn host_text(h: HostTypeView) -> Seq<char> {
    match h {
        HostTypeView::HostName(t) => t,
        HostTypeView::HostAddrV4(t) => t,
        HostTypeView::HostAddrV6(t) => t,
    }
}

/// A prefix `<nick>@<host>` with a valid nick (holding neither `@` nor `!`)
/// and a host that reads as one is a nick at that host: the nick is kept
/// and the host is the text after the `@`.
pub proof fn law_prefix_nick_at_host(nick: Seq<char>, host: Seq<char>)
    requires
        !nick.contains('@'),
        !nick.contains('!'),
        spec_valid_nick(nick),
        host.len() > 0,
        spec_parse_host(host) is Ok,
    ensures
        spec_parse_prefix(nick + seq!['@'] + host) matches Ok(MsgPrefixView::NickHost(n, h))
            && n == nick && h == spec_parse_host(host)->Ok_0 && host_text(h) == host,
{
    crate::text::lemma_split_once_concat(nick, '@', host);
    crate::text::lemma_index_of(nick, '!');
    if crate::text::index_of(nick, '!') >= 0 {
        assert(nick.contains('!'));
    }
    assert(nick.len() > 0);
}

/// A prefix `<nick>!<user>@<host>` with a valid nick (holding neither `@`
/// nor `!`), a valid user (holding no `@`) and a host that reads as one
/// keeps all three parts in their places.
pub proof fn law_prefix_nick_user_host(nick: Seq<char>, user: Seq<char>, host: Seq<char>)
    requires
        !nick.contains('@'),
        !nick.contains('!'),
        !user.contains('@'),
        spec_valid_nick(nick),
        user.len() > 0,
        spec_valid_user(user),
        host.len() > 0,
        spec_parse_host(host) is Ok,
    ensures
        spec_parse_prefix(nick + seq!['!'] + user + seq!['@'] + host) matches Ok(
            MsgPrefixView::NickUserHost(n, u, h),
        ) && n == nick && u == user && h == spec_parse_host(host)->Ok_0 && host_text(h) == host,
{
    let name = nick + seq!['!'] + user;
    assert(!name.contains('@')) by {
        if name.contains('@') {
            let j = choose|j: int| 0 <= j < name.len() && name[j] == '@';
            if j < nick.len() {
                assert(nick[j] == '@');
            } else if j > nick.len() {
                assert(user[j - nick.len() - 1] == '@');
            }
        }
    }
    assert(nick + seq!['!'] + user + seq!['@'] + host =~= name + seq!['@'] + host);
    crate::text::lemma_split_once_concat(name, '@', host);
    crate::text::lemma_split_once_concat(nick, '!', user);
    assert(nick.len() > 0);
}

/// A line `:<nick>@<host> <rest>` that the reader can take in (see
/// `law_prefix_nick_at_host` for the nick and the host) carries the prefix
/// `NickHost` with that nick and that host.
pub proof fn law_line_with_nick_at_host(nick: Seq<char>, host: Seq<char>, rest: Seq<char>)
    requires
        !nick.contains('@'),
        !nick.contains('!'),
        !nick.contains(' '),
        !host.contains(' '),
        spec_valid_nick(nick),
        host.len() > 0,
        spec_parse_host(host) is Ok,
        spec_parse_message(seq![':'] + nick + seq!['@'] + host + seq![' '] + rest) is Some,
    ensures
        spec_parse_message(seq![':'] + nick + seq!['@'] + host + seq![' '] + rest) matches Some(
            Ok(m),
        ) && m.prefix == Some(MsgPrefixView::NickHost(nick, spec_parse_host(host)->Ok_0)),
{
    let tok = seq![':'] + nick + seq!['@'] + host;
    let line = seq![':'] + nick + seq!['@'] + host + seq![' '] + rest;
    assert(!tok.contains(' ')) by {
        if tok.contains(' ') {
            let j = choose|j: int| 0 <= j < tok.len() && tok[j] == ' ';
            if 1 <= j < nick.len() + 1 {
                assert(nick[j - 1] == ' ');
            } else if j > nick.len() + 1 {
                assert(host[j - nick.len() - 2] == ' ');
            }
        }
    }
    crate::text::lemma_split_once_concat(tok, ' ', rest);
    assert(line[0] == ':');
    assert(tok.drop_first() =~= nick + seq!['@'] + host);
    law_prefix_nick_at_host(nick, host);
}

/// A prefix of one word (without `@`) keeps its text: a valid nick reads
/// as a name or a nick carrying that word, anything else that reads as a
/// host as that host.
pub proof fn law_prefix_single_word(word: Seq<char>)
    requires
        word.len() > 0,
        !word.contains('@'),
        spec_valid_nick(word) || spec_parse_host(word) is Ok,
    ensures
        spec_valid_nick(word) ==> (spec_parse_prefix(word) == Ok::<MsgPrefixView, ParseErrorView>(
            MsgPrefixView::Name(word),
        ) || spec_parse_prefix(word) == Ok::<MsgPrefixView, ParseErrorView>(
            MsgPrefixView::Nick(word),
        )),
        !spec_valid_nick(word) ==> (spec_parse_prefix(word) matches Ok(MsgPrefixView::Host(h))
            && host_text(h) == word),
{
    crate::text::lemma_index_of(word, '@');
    if crate::text::index_of(word, '@') >= 0 {
        assert(word.contains('@'));
    }
}

} // verus!
