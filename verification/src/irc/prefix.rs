//! Message prefixes: `nick!user@host`, `nick@host`, `host` or `nick`.
use crate::irc::rfc_defs::{
    is_digit, is_shortname_char, lemma_host_lacks, lemma_nick_lacks, lemma_user_lacks,
    spec_valid_host, spec_valid_nick, spec_valid_user, valid_host, valid_nick, valid_user,
};
use crate::text::{
    lemma_index_of, lemma_split_once_concat, lemma_split_once_parts, owned, push_char, split_once,
    split_once_char,
};
use vstd::prelude::*;
use vstd::string::*;

verus! {

/// The source of a message.
#[derive(Debug)]
pub struct Prefix {
    pub nick: Option<String>,
    pub user: Option<String>,
    pub host: Option<String>,
}

/// A prefix as text.
pub struct PrefixView {
    pub nick: Option<Seq<char>>,
    pub user: Option<Seq<char>>,
    pub host: Option<Seq<char>>,
}

/// The text of an optional string.
pub open spec fn opt_view(o: Option<String>) -> Option<Seq<char>> {
    match o {
        Some(s) => Some(s@),
        None => None,
    }
}

impl View for Prefix {
    type V = PrefixView;

    open spec fn view(&self) -> PrefixView {
        PrefixView { nick: opt_view(self.nick), user: opt_view(self.user), host: opt_view(self.host) }
    }
}

fn opt_str_eq(a: &Option<String>, b: &Option<String>) -> (res: bool)
    ensures
        res == (opt_view(*a) == opt_view(*b)),
{
    match a {
        Some(x) => match b {
            Some(y) => *x == *y,
            None => false,
        },
        None => match b {
            Some(_) => false,
            None => true,
        },
    }
}

/// Two prefixes compare equal when their nicks, users and hosts are equal.
impl PartialEq for Prefix {
    fn eq(&self, other: &Self) -> (res: bool) {
        opt_str_eq(&self.nick, &other.nick) && opt_str_eq(&self.user, &other.user) && opt_str_eq(
            &self.host,
            &other.host,
        )
    }
}

impl vstd::std_specs::cmp::PartialEqSpecImpl for Prefix {
    open spec fn obeys_eq_spec() -> bool {
        true
    }

    open spec fn eq_spec(&self, other: &Self) -> bool {
        self@ == other@
    }
}

/// `nick!user@host`: the user and the `@` are written only when a host
/// follows the nick, the user only when there is a nick and a host.
pub open spec fn spec_assemble_prefix(p: PrefixView) -> Seq<char> {
    let user_part = match p.user {
        Some(u) => seq!['!'] + u,
        None => Seq::empty(),
    };
    let head = match p.nick {
        Some(n) => if p.host is Some {
            n + user_part + seq!['@']
        } else {
            n
        },
        None => Seq::empty(),
    };
    head + match p.host {
        Some(h) => h,
        None => Seq::empty(),
    }
}

/// The prefix that a text denotes: `nick!user@host` and `nick@host` with
/// valid parts; otherwise a valid host; otherwise a valid nick.
pub open spec fn spec_parse_prefix(s: Seq<char>) -> Option<PrefixView> {
    match split_once(s, '@') {
        Some((nick, host)) => match split_once(nick, '!') {
            Some((n, u)) => if spec_valid_nick(n) && spec_valid_user(u) && spec_valid_host(host) {
                Some(PrefixView { nick: Some(n), user: Some(u), host: Some(host) })
            } else {
                None
            },
            None => if spec_valid_nick(nick) && spec_valid_host(host) {
                Some(PrefixView { nick: Some(nick), user: None, host: Some(host) })
            } else {
                None
            },
        },
        None => if spec_valid_host(s) {
            Some(PrefixView { nick: None, user: None, host: Some(s) })
        } else if spec_valid_nick(s) {
            Some(PrefixView { nick: Some(s), user: None, host: None })
        } else {
            None
        },
    }
}

/// Writes a prefix (see `spec_assemble_prefix`).
pub fn assemble_prefix(p: Prefix) -> (res: String)
    ensures
        res@ == spec_assemble_prefix(p@),
{
    let mut out = String::new();
    let has_host = p.host.is_some();
    if let Some(nick) = &p.nick {
        out.append(nick.as_str());
        if has_host {
            if let Some(user) = &p.user {
                push_char(&mut out, '!');
                out.append(user.as_str());
            }
            push_char(&mut out, '@');
        }
    }
    if let Some(host) = &p.host {
        out.append(host.as_str());
    }
    assert(out@ =~= spec_assemble_prefix(p@));
    out
}

/// Reads a prefix, keeping only valid nick, user and host strings.
pub fn parse_prefix(s: &str) -> (res: Option<Prefix>)
    ensures
        match res {
            Some(p) => spec_parse_prefix(s@) == Some(p@),
            None => spec_parse_prefix(s@) is None,
        },
{
    if let Some((nick, host)) = split_once_char(s, '@') {
        if let Some((nick, user)) = split_once_char(nick, '!') {
            if !valid_nick(nick) {
                return None;
            }
            if !valid_user(user) {
                return None;
            }
            if !valid_host(host) {
                return None;
            }
            Some(Prefix { nick: Some(owned(nick)), user: Some(owned(user)), host: Some(owned(host)) })
        } else {
            if !valid_nick(nick) {
                return None;
            }
            if !valid_host(host) {
                return None;
            }
            Some(Prefix { nick: Some(owned(nick)), user: None, host: Some(owned(host)) })
        }
    } else {
        if valid_host(s) {
            Some(Prefix { nick: None, user: None, host: Some(owned(s)) })
        } else {
            if !valid_nick(s) {
                return None;
            }
            Some(Prefix { nick: Some(owned(s)), user: None, host: None })
        }
    }
}

/// Whatever text reads as a prefix is written back as the same text.
pub proof fn law_assemble_parsed_prefix(s: Seq<char>)
    requires
        spec_parse_prefix(s) is Some,
    ensures
        spec_assemble_prefix(spec_parse_prefix(s)->0) == s,
{
    lemma_split_once_parts(s, '@');
    match split_once(s, '@') {
        Some((nick, host)) => {
            lemma_split_once_parts(nick, '!');
            match split_once(nick, '!') {
                Some((n, u)) => {
                    assert(n + (seq!['!'] + u + seq!['@']) + host =~= s);
                },
                None => {
                    assert(nick + seq!['@'] + host =~= s);
                    assert(nick + (Seq::<char>::empty() + seq!['@']) =~= nick + seq!['@']);
                },
            }
        },
        None => {
            if spec_valid_host(s) {
                assert(Seq::<char>::empty() + s =~= s);
            } else {
                assert(s + Seq::<char>::empty() + Seq::<char>::empty() =~= s);
            }
        },
    }
}

/// A valid prefix with a host, whose user comes with a nick, reads back as
/// itself once written.
pub proof fn law_parse_assembled_prefix(p: PrefixView)
    requires
        p.host is Some,
        spec_valid_host(p.host->0),
        p.nick matches Some(n) ==> spec_valid_nick(n),
        p.user matches Some(u) ==> spec_valid_user(u) && p.nick is Some,
    ensures
        spec_parse_prefix(spec_assemble_prefix(p)) == Some(p),
{
    let h = p.host->0;
    lemma_host_lacks(h, '@');
    lemma_host_lacks(h, '!');
    match p.nick {
        Some(n) => {
            lemma_nick_lacks(n);
            match p.user {
                Some(u) => {
                    lemma_user_lacks(u);
                    let nu = n + seq!['!'] + u;
                    assert(!nu.contains('@')) by {
                        if nu.contains('@') {
                            let k = choose|k: int| 0 <= k < nu.len() && nu[k] == '@';
                            if k < n.len() {
                                assert(n[k] == '@');
                            } else if k > n.len() {
                                assert(u[k - n.len() - 1] == '@');
                            }
                        }
                    }
                    assert(spec_assemble_prefix(p) =~= nu + seq!['@'] + h);
                    lemma_split_once_concat(nu, '@', h);
                    lemma_split_once_concat(n, '!', u);
                },
                None => {
                    assert(spec_assemble_prefix(p) =~= n + seq!['@'] + h);
                    lemma_split_once_concat(n, '@', h);
                    lemma_index_of(n, '!');
                },
            }
        },
        None => {
            assert(spec_assemble_prefix(p) =~= h);
            lemma_index_of(h, '@');
        },
    }
}

} // verus!
