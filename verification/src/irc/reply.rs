//! Numeric replies: their codes, their text, and the splitting of a reply
//! that is too long for one protocol line.
use crate::irc::chan::{ChanTopic, ChanTopicView};
use crate::irc::rfc_defs::MAX_MSG_SIZE;
use crate::text::{decimal, push_char, push_decimal, push_signed_decimal, signed_decimal};
use vstd::prelude::*;
use vstd::slice::slice_subrange;
use vstd::string::*;
use vstd::utf8::*;

verus! {

/// A numeric reply and what it carries.
pub enum Reply {
    NoReply,
    Welcome(String, String, String),
    YourHost(String, String),
    Created(String),
    MyInfo(String, String, String, String),
    NoTopic(String),
    Topic(String, String),
    TopicSetBy(String, String, i64),
    NameReply(String, Vec<String>),
    EndofNames(String),
    ListStart,
    ListReply(String, usize, Option<ChanTopic>),
    EndofList,
}

/// A reply as mathematics.
pub enum ReplyView {
    NoReply,
    Welcome(Seq<char>, Seq<char>, Seq<char>),
    YourHost(Seq<char>, Seq<char>),
    Created(Seq<char>),
    MyInfo(Seq<char>, Seq<char>, Seq<char>, Seq<char>),
    NoTopic(Seq<char>),
    Topic(Seq<char>, Seq<char>),
    TopicSetBy(Seq<char>, Seq<char>, i64),
    NameReply(Seq<char>, Seq<Seq<char>>),
    EndofNames(Seq<char>),
    ListStart,
    ListReply(Seq<char>, usize, Option<ChanTopicView>),
    EndofList,
}

impl View for Reply {
    type V = ReplyView;

    open spec fn view(&self) -> ReplyView {
        match self {
            Reply::NoReply => ReplyView::NoReply,
            Reply::Welcome(a, b, c) => ReplyView::Welcome(a@, b@, c@),
            Reply::YourHost(a, b) => ReplyView::YourHost(a@, b@),
            Reply::Created(a) => ReplyView::Created(a@),
            Reply::MyInfo(a, b, c, d) => ReplyView::MyInfo(a@, b@, c@, d@),
            Reply::NoTopic(a) => ReplyView::NoTopic(a@),
            Reply::Topic(a, b) => ReplyView::Topic(a@, b@),
            Reply::TopicSetBy(a, b, t) => ReplyView::TopicSetBy(a@, b@, *t),
            Reply::NameReply(a, ns) => ReplyView::NameReply(a@, string_views(ns@)),
            Reply::EndofNames(a) => ReplyView::EndofNames(a@),
            Reply::ListStart => ReplyView::ListStart,
            Reply::ListReply(a, n, t) => ReplyView::ListReply(
                a@,
                *n,
                match t {
                    Some(t) => Some(t@),
                    None => None,
                },
            ),
            Reply::EndofList => ReplyView::EndofList,
        }
    }
}

/// The reply code of each reply.
pub open spec fn spec_numeric(r: &Reply) -> u16 {
    match r {
        Reply::Welcome(..) => 1,
        Reply::YourHost(..) => 2,
        Reply::Created(..) => 3,
        Reply::MyInfo(..) => 4,
        Reply::NoReply => 300,
        Reply::ListStart => 321,
        Reply::ListReply(..) => 322,
        Reply::EndofList => 323,
        Reply::NoTopic(..) => 331,
        Reply::Topic(..) => 332,
        Reply::TopicSetBy(..) => 333,
        Reply::NameReply(..) => 353,
        Reply::EndofNames(..) => 366,
    }
}

/// A number written with at least three digits, zeros in front.
pub open spec fn pad3(n: nat) -> Seq<char> {
    if n < 10 {
        "00"@ + decimal(n)
    } else if n < 100 {
        "0"@ + decimal(n)
    } else {
        decimal(n)
    }
}

/// Words joined with a separator between each two.
pub open spec fn join(words: Seq<Seq<char>>, sep: Seq<char>) -> Seq<char>
    decreases words.len(),
{
    if words.len() == 0 {
        Seq::empty()
    } else if words.len() == 1 {
        words[0]
    } else {
        join(words.drop_last(), sep) + sep + words.last()
    }
}

/// The text of some strings.
pub open spec fn string_views(v: Seq<String>) -> Seq<Seq<char>> {
    v.map_values(|s: String| s@)
}

/// Everything in a reply after `:<server> <code> <recipient> `.
pub open spec fn spec_body(r: &Reply) -> Option<Seq<char>> {
    match r {
        Reply::NoReply => None,
        Reply::Welcome(nick, user, host) => Some(
            ":Welcome to Rusty IRC Network "@ + nick@ + "!"@ + user@ + "@"@ + host@,
        ),
        Reply::YourHost(serv, ver) => Some(
            ":Your host is "@ + serv@ + ", running version "@ + ver@,
        ),
        Reply::Created(time) => Some(":This server was created "@ + time@),
        Reply::MyInfo(serv, ver, umodes, chanmodes) => Some(
            ":"@ + serv@ + " "@ + ver@ + " "@ + umodes@ + " "@ + chanmodes@,
        ),
        Reply::ListStart => Some("Channel Users :Topic"@),
        Reply::ListReply(chan, n_users, topic_opt) => match topic_opt {
            Some(topic) => Some(chan@ + " "@ + decimal(*n_users as nat) + " :"@ + topic.text@),
            None => Some(chan@ + " "@ + decimal(*n_users as nat)),
        },
        Reply::EndofList => Some(":End of /LIST"@),
        Reply::NoTopic(chan) => Some(chan@ + " :No topic is set."@),
        Reply::Topic(chan, topic_msg) => Some(chan@ + " :"@ + topic_msg@),
        Reply::TopicSetBy(chan, usermask, timestamp) => Some(
            chan@ + " "@ + usermask@ + " "@ + signed_decimal(*timestamp as int),
        ),
        Reply::NameReply(chan, nicks) => Some(chan@ + " :"@ + join(string_views(nicks@), " "@)),
        Reply::EndofNames(chan) => Some(chan@ + " :End of /NAMES list"@),
    }
}

/// The full protocol line of a reply from `server` to `recipient`.
pub open spec fn spec_format(r: &Reply, server: Seq<char>, recipient: Seq<char>) -> Seq<char> {
    let head = ":"@ + server + " "@ + pad3(spec_numeric(r) as nat) + " "@ + recipient;
    match spec_body(r) {
        Some(b) => head + " "@ + b,
        None => head,
    }
}

/// The short text of a reply: its code and what it says.
pub open spec fn spec_display(r: &Reply) -> Seq<char> {
    match r {
        Reply::NoReply => "300"@,
        Reply::Welcome(nick, user, host) => "001 :Welcome to Rusty IRC Network "@ + nick@ + "!"@
            + user@ + "@"@ + host@,
        Reply::YourHost(serv, ver) => "002 :Your host is "@ + serv@ + ", running version "@
            + ver@,
        Reply::Created(time) => "003 :This server was created "@ + time@,
        Reply::MyInfo(serv, ver, umodes, chanmodes) => "004 :"@ + serv@ + " "@ + ver@ + " "@
            + umodes@ + " "@ + chanmodes@,
        Reply::ListStart => "321 Chan Users :Topic"@,
        Reply::ListReply(chan, n_users, topic_opt) => match topic_opt {
            Some(topic) => "322 "@ + chan@ + " "@ + decimal(*n_users as nat) + " :"@
                + topic.text@,
            None => "322 "@ + chan@ + " "@ + decimal(*n_users as nat),
        },
        Reply::EndofList => "323 :End of /LIST"@,
        Reply::NoTopic(chan) => "331 "@ + chan@ + " :No topic is set"@,
        Reply::Topic(chan, topic_msg) => "332 "@ + chan@ + " :"@ + topic_msg@,
        Reply::TopicSetBy(chan, usermask, timestamp) => "333 "@ + chan@ + " "@ + usermask@
            + " "@ + signed_decimal(*timestamp as int),
        Reply::NameReply(chan, nicks) => "353 "@ + chan@ + " :"@ + join(
            string_views(nicks@),
            " "@,
        ),
        Reply::EndofNames(chan) => "366 "@ + chan@ + " :End of /NAMES list"@,
    }
}

/// A reply code written with at least three digits, zeros in front.
pub fn code_string(n: u16) -> (res: String)
    ensures
        res@ == pad3(n as nat),
{
    let mut s = String::new();
    if n < 10 {
        s.append("00");
    } else if n < 100 {
        s.append("0");
    }
    push_decimal(&mut s, n as u64);
    assert(s@ =~= pad3(n as nat));
    s
}

/// Appends the words joined by single spaces.
pub fn push_joined(out: &mut String, words: &Vec<String>)
    ensures
        final(out)@ == old(out)@ + join(string_views(words@), " "@),
{
    let ghost ws = string_views(words@);
    let ghost start = out@;
    let mut i: usize = 0;
    assert(ws.subrange(0, 0) =~= Seq::<Seq<char>>::empty());
    assert(start + Seq::<char>::empty() =~= start);
    while i < words.len()
        invariant
            ws == string_views(words@),
            ws.len() == words@.len(),
            i <= words@.len(),
            out@ == start + join(ws.subrange(0, i as int), " "@),
        decreases words@.len() - i,
    {
        let ghost before = out@;
        let ghost pre = ws.subrange(0, i as int + 1);
        assert(pre.drop_last() =~= ws.subrange(0, i as int));
        assert(pre.last() == words@[i as int]@);
        if i > 0 {
            out.append(" ");
        }
        out.append(words[i].as_str());
        proof {
            if i == 0 {
                assert(join(ws.subrange(0, 0), " "@) =~= Seq::<char>::empty());
                assert(pre =~= seq![words@[0]@]);
                assert(out@ =~= start + join(pre, " "@));
            } else {
                assert(out@ =~= start + join(pre, " "@));
            }
        }
        i += 1;
    }
    assert(ws.subrange(0, ws.len() as int) =~= ws);
}

impl Reply {
    /// The reply code.
    pub fn numeric(&self) -> (res: u16)
        ensures
            res == spec_numeric(self),
    {
        match self {
            Reply::Welcome(_n, _u, _h) => 1,
            Reply::YourHost(_s, _v) => 2,
            Reply::Created(_t) => 3,
            Reply::MyInfo(_s, _v, _um, _cm) => 4,
            Reply::NoReply => 300,
            Reply::ListStart => 321,
            Reply::ListReply(_ch, _nu, _top) => 322,
            Reply::EndofList => 323,
            Reply::NoTopic(_ch) => 331,
            Reply::Topic(_ch, _top) => 332,
            Reply::TopicSetBy(_ch, _umask, _stamp) => 333,
            Reply::NameReply(_ch, _ns) => 353,
            Reply::EndofNames(_ch) => 366,
        }
    }

    /// The reply code written with three digits.
    pub fn reply_code(&self) -> (res: String)
        ensures
            res@ == pad3(spec_numeric(self) as nat),
    {
        code_string(self.numeric())
    }

    /// Everything after `:<server> <code> <recipient> `, if anything.
    pub fn body(&self) -> (res: Option<String>)
        ensures
            match res {
                Some(b) => spec_body(self) == Some(b@),
                None => spec_body(self) is None,
            },
    {
        let mut s = String::new();
        match self {
            Reply::NoReply => {
                return None;
            },
            Reply::Welcome(nick, user, host) => {
                s.append(":Welcome to Rusty IRC Network ");
                s.append(nick.as_str());
                s.append("!");
                s.append(user.as_str());
                s.append("@");
                s.append(host.as_str());
            },
            Reply::YourHost(serv, ver) => {
                s.append(":Your host is ");
                s.append(serv.as_str());
                s.append(", running version ");
                s.append(ver.as_str());
            },
            Reply::Created(time) => {
                s.append(":This server was created ");
                s.append(time.as_str());
            },
            Reply::MyInfo(serv, ver, umodes, chanmodes) => {
                s.append(":");
                s.append(serv.as_str());
                s.append(" ");
                s.append(ver.as_str());
                s.append(" ");
                s.append(umodes.as_str());
                s.append(" ");
                s.append(chanmodes.as_str());
            },
            Reply::ListStart => {
                s.append("Channel Users :Topic");
            },
            Reply::ListReply(chan, n_users, topic_opt) => {
                s.append(chan.as_str());
                s.append(" ");
                push_decimal(&mut s, *n_users as u64);
                if let Some(topic) = topic_opt {
                    s.append(" :");
                    s.append(topic.text.as_str());
                }
            },
            Reply::EndofList => {
                s.append(":End of /LIST");
            },
            Reply::NoTopic(chan) => {
                s.append(chan.as_str());
                s.append(" :No topic is set.");
            },
            Reply::Topic(chan, topic_msg) => {
                s.append(chan.as_str());
                s.append(" :");
                s.append(topic_msg.as_str());
            },
            Reply::TopicSetBy(chan, usermask, timestamp) => {
                s.append(chan.as_str());
                s.append(" ");
                s.append(usermask.as_str());
                s.append(" ");
                push_signed_decimal(&mut s, *timestamp);
            },
            Reply::NameReply(chan, nicks) => {
                s.append(chan.as_str());
                s.append(" :");
                push_joined(&mut s, nicks);
            },
            Reply::EndofNames(chan) => {
                s.append(chan.as_str());
                s.append(" :End of /NAMES list");
            },
        }
        assert(spec_body(self) == Some(s@));
        Some(s)
    }

    /// The full protocol line `:<server> <code> <recipient>[ <body>]`.
    pub fn format(&self, server: &str, recipient: &str) -> (res: String)
        ensures
            res@ == spec_format(self, server@, recipient@),
    {
        let mut s = String::new();
        s.append(":");
        s.append(server);
        s.append(" ");
        let code = self.reply_code();
        s.append(code.as_str());
        s.append(" ");
        s.append(recipient);
        if let Some(reply_body) = self.body() {
            s.append(" ");
            s.append(reply_body.as_str());
        }
        s
    }

    /// The short text of the reply: its code and what it says.
    pub fn to_string(&self) -> (res: String)
        ensures
            res@ == spec_display(self),
    {
        let mut s = String::new();
        match self {
            Reply::NoReply => {
                s.append("300");
            },
            Reply::Welcome(nick, user, host) => {
                s.append("001 :Welcome to Rusty IRC Network ");
                s.append(nick.as_str());
                s.append("!");
                s.append(user.as_str());
                s.append("@");
                s.append(host.as_str());
            },
            Reply::YourHost(serv, ver) => {
                s.append("002 :Your host is ");
                s.append(serv.as_str());
                s.append(", running version ");
                s.append(ver.as_str());
            },
            Reply::Created(time) => {
                s.append("003 :This server was created ");
                s.append(time.as_str());
            },
            Reply::MyInfo(serv, ver, umodes, chanmodes) => {
                s.append("004 :");
                s.append(serv.as_str());
                s.append(" ");
                s.append(ver.as_str());
                s.append(" ");
                s.append(umodes.as_str());
                s.append(" ");
                s.append(chanmodes.as_str());
            },
            Reply::ListStart => {
                s.append("321 Chan Users :Topic");
            },
            Reply::ListReply(chan, n_users, topic_opt) => {
                s.append("322 ");
                s.append(chan.as_str());
                s.append(" ");
                push_decimal(&mut s, *n_users as u64);
                if let Some(topic) = topic_opt {
                    s.append(" :");
                    s.append(topic.text.as_str());
                }
            },
            Reply::EndofList => {
                s.append("323 :End of /LIST");
            },
            Reply::NoTopic(chan) => {
                s.append("331 ");
                s.append(chan.as_str());
                s.append(" :No topic is set");
            },
            Reply::Topic(chan, topic_msg) => {
                s.append("332 ");
                s.append(chan.as_str());
                s.append(" :");
                s.append(topic_msg.as_str());
            },
            Reply::TopicSetBy(chan, usermask, timestamp) => {
                s.append("333 ");
                s.append(chan.as_str());
                s.append(" ");
                s.append(usermask.as_str());
                s.append(" ");
                push_signed_decimal(&mut s, *timestamp);
            },
            Reply::NameReply(chan, nicks) => {
                s.append("353 ");
                s.append(chan.as_str());
                s.append(" :");
                push_joined(&mut s, nicks);
            },
            Reply::EndofNames(chan) => {
                s.append("366 ");
                s.append(chan.as_str());
                s.append(" :End of /NAMES list");
            },
        }
        assert(s@ == spec_display(self));
        s
    }
}


// ---------------------------------------------------------------------------
// splitting a reply that is too long for one line

/// `String::from_utf8`: the text that valid UTF-8 bytes encode, or nothing
/// when they are not valid UTF-8.
#[verifier::external_body]
fn string_from_utf8(bytes: Vec<u8>) -> (res: Option<String>)
    ensures
        match res {
            Some(s) => valid_utf8(bytes@) && s@ == decode_utf8(bytes@),
            None => !valid_utf8(bytes@),
        },
{
    match String::from_utf8(bytes) {
        Ok(s) => Some(s),
        Err(_) => None,
    }
}

/// `p` is the position of the first `" :"` in `b`.
pub open spec fn is_first_colon_sep(b: Seq<u8>, p: int) -> bool {
    &&& 0 <= p
    &&& p + 1 < b.len()
    &&& b[p] == 32u8
    &&& b[p + 1] == 58u8
    &&& forall|j: int| 0 <= j < p ==> !(b[j] == 32u8 && #[trigger] b[j + 1] == 58u8)
}

/// Where the first `" :"` of `b` starts.
pub open spec fn colon_sep(b: Seq<u8>) -> Option<int> {
    if exists|p: int| is_first_colon_sep(b, p) {
        Some(choose|p: int| is_first_colon_sep(b, p))
    } else {
        None
    }
}

/// The last space among the bytes at positions `1..=index` (the byte at
/// position 0 is not looked at).
pub open spec fn last_space_upto(b: Seq<u8>, index: int) -> Option<int>
    decreases index,
{
    if index <= 0 {
        None
    } else if b[index] == 32u8 {
        Some(index)
    } else {
        last_space_upto(b, index - 1)
    }
}

/// How `split` cuts the bytes of a reply: a reply of at most 510 bytes, or
/// one that does not start with `:`, stays whole; a longer one,
/// `:<prefix> :<bulk>`, becomes `:<prefix> :<chunk>` and
/// `:<prefix> :<remainder>`, cut at the last space that leaves the first
/// line at most 512 bytes long (the space is dropped), or right at that
/// length when there is no such space. `None` on the replies that `split`
/// cannot handle: no `" :"`, a prefix longer than 507 bytes, a bulk that
/// already fits, or a cut inside a character.
pub open spec fn spec_split(b: Seq<u8>) -> Option<(Seq<u8>, Option<Seq<u8>>)> {
    if b.len() <= MAX_MSG_SIZE - 2 || b[0] != 58u8 {
        Some((b, None))
    } else {
        let t = b.subrange(1, b.len() as int);
        match colon_sep(t) {
            None => None,
            Some(p) => {
                let prefix = t.subrange(0, p);
                let bulk = t.subrange(p + 2, t.len() as int);
                let overhead = prefix.len() + 5;
                if overhead > MAX_MSG_SIZE {
                    None
                } else {
                    let room = MAX_MSG_SIZE - overhead;
                    if bulk.len() <= room {
                        None
                    } else {
                        let head = seq![58u8] + prefix + seq![32u8, 58u8];
                        match last_space_upto(bulk, room) {
                            Some(si) => Some(
                                (
                                    head + bulk.subrange(0, si),
                                    Some(head + bulk.subrange(si + 1, bulk.len() as int)),
                                ),
                            ),
                            None => if valid_utf8(bulk.subrange(0, room)) && valid_utf8(
                                bulk.subrange(room, bulk.len() as int),
                            ) {
                                Some(
                                    (
                                        head + bulk.subrange(0, room),
                                        Some(head + bulk.subrange(room, bulk.len() as int)),
                                    ),
                                )
                            } else {
                                None
                            },
                        }
                    }
                }
            },
        }
    }
}

/// The last space found is a space at a position in `1..=index`.
proof fn lemma_last_space(b: Seq<u8>, index: int)
    ensures
        last_space_upto(b, index) matches Some(j) ==> 0 < j <= index && b[j] == 32u8,
    decreases index,
{
    if index > 0 && b[index] != 32u8 {
        lemma_last_space(b, index - 1);
    }
}

/// Bytes below 128 are valid UTF-8.
proof fn lemma_ascii_valid(b: Seq<u8>)
    requires
        forall|i: int| 0 <= i < b.len() ==> #[trigger] b[i] < 128u8,
    ensures
        valid_utf8(b),
{
    assert(b.subrange(0, 0) =~= Seq::<u8>::empty());
    assert(partial_valid_utf8(b, 0));
    assert forall|i: int| 0 <= 0 <= i < b.len() <= b.len() implies #[trigger] is_leading_byte_width_1(
        b[i],
    ) by {
        assert(b[i] < 128u8);
    }
    partial_valid_utf8_extend_ascii_block(b, 0, b.len() as int);
    assert(b.subrange(0, b.len() as int) =~= b);
}

/// Cutting valid UTF-8 out around an ASCII byte leaves valid UTF-8 on both
/// sides.
proof fn lemma_split_at_ascii(b: Seq<u8>, i: int)
    requires
        valid_utf8(b),
        0 <= i < b.len(),
        b[i] < 128u8,
    ensures
        valid_utf8(b.subrange(0, i)),
        valid_utf8(b.subrange(i + 1, b.len() as int)),
{
    is_char_boundary_iff_not_is_continuation_byte(b, i);
    valid_utf8_split(b, i);
    let c = b.subrange(i, b.len() as int);
    assert(c[0] == b[i]);
    assert(length_of_first_scalar(c) == 1);
    assert(pop_first_scalar(c) =~= b.subrange(i + 1, b.len() as int));
}

/// The position of the last space among `bytes[1..=index]`.
pub fn rfind_space_index(bytes: &[u8], index: usize) -> (res: Option<usize>)
    requires
        index == 0 || index < bytes@.len(),
    ensures
        match res {
            Some(j) => last_space_upto(bytes@, index as int) == Some(j as int),
            None => last_space_upto(bytes@, index as int) is None,
        },
{
    let mut i = index;
    while i > 0
        invariant
            i <= index,
            index == 0 || index < bytes@.len(),
            last_space_upto(bytes@, index as int) == last_space_upto(bytes@, i as int),
        decreases i,
    {
        if bytes[i] == 32u8 {
            assert(last_space_upto(bytes@, i as int) == Some(i as int));
            return Some(i);
        }
        i -= 1;
    }
    None
}

fn push_bytes(v: &mut Vec<u8>, s: &[u8])
    ensures
        final(v)@ == old(v)@ + s@,
{
    let mut i: usize = 0;
    while i < s.len()
        invariant
            i <= s@.len(),
            v@ == old(v)@ + s@.subrange(0, i as int),
        decreases s@.len() - i,
    {
        v.push(s[i]);
        i += 1;
        assert(v@ =~= old(v)@ + s@.subrange(0, i as int));
    }
    assert(s@.subrange(0, s@.len() as int) =~= s@);
}

/// `:<prefix> :<piece>` as text.
fn make_line(prefix: &[u8], piece: &[u8]) -> (res: String)
    requires
        valid_utf8(prefix@),
        valid_utf8(piece@),
    ensures
        encode_utf8(res@) == seq![58u8] + prefix@ + seq![32u8, 58u8] + piece@,
{
    let mut v: Vec<u8> = Vec::new();
    v.push(58u8);
    push_bytes(&mut v, prefix);
    v.push(32u8);
    v.push(58u8);
    push_bytes(&mut v, piece);
    let ghost bytes = v@;
    proof {
        let a = seq![58u8];
        let m = seq![32u8, 58u8];
        lemma_ascii_valid(a);
        lemma_ascii_valid(m);
        valid_utf8_concat(a, prefix@);
        valid_utf8_concat(a + prefix@, m);
        valid_utf8_concat(a + prefix@ + m, piece@);
        assert(bytes =~= a + prefix@ + m + piece@);
    }
    match string_from_utf8(v) {
        Some(s) => {
            proof {
                decode_utf8_encode_utf8(bytes);
            }
            s
        },
        None => {
            assert(false);
            String::new()
        },
    }
}

/// Position of the first `" :"` in `b`.
fn find_colon_sep(b: &[u8]) -> (res: Option<usize>)
    ensures
        match res {
            Some(p) => colon_sep(b@) == Some(p as int),
            None => colon_sep(b@) is None,
        },
{
    let n = b.len();
    if n < 2 {
        return None;
    }
    let mut i: usize = 0;
    while i < n - 1
        invariant
            n == b@.len(),
            n >= 2,
            i <= n - 1,
            forall|j: int| 0 <= j < i ==> !(b@[j] == 32u8 && #[trigger] b@[j + 1] == 58u8),
        decreases n - 1 - i,
    {
        if b[i] == 32u8 && b[i + 1] == 58u8 {
            proof {
                assert(is_first_colon_sep(b@, i as int));
                let q = choose|p: int| is_first_colon_sep(b@, p);
                if q < i {
                    assert(!(b@[q] == 32u8 && b@[q + 1] == 58u8));
                } else if q > i {
                    assert(!(b@[i as int] == 32u8 && b@[i + 1] == 58u8));
                }
            }
            return Some(i);
        }
        i += 1;
    }
    None
}

/// Cuts a reply that is too long for one line in two (see `spec_split`).
pub fn split(message: &str) -> (res: (String, Option<String>))
    requires
        spec_split(encode_utf8(message@)) is Some,
    ensures
        encode_utf8(res.0@) == (spec_split(encode_utf8(message@))->0).0,
        match res.1 {
            Some(r) => (spec_split(encode_utf8(message@))->0).1 == Some(encode_utf8(r@)),
            None => (spec_split(encode_utf8(message@))->0).1 is None,
        },
{
    let msg_bytes = message.as_bytes();
    proof {
        encode_utf8_valid_utf8(message@);
    }
    if msg_bytes.len() <= MAX_MSG_SIZE - 2 || msg_bytes[0] != 58u8 {
        return (message.to_owned(), None);
    }
    let ghost b = msg_bytes@;
    let trimmed = slice_subrange(msg_bytes, 1, msg_bytes.len());
    proof {
        lemma_split_at_ascii(b, 0);
    }
    let p = match find_colon_sep(trimmed) {
        Some(p) => p,
        None => {
            assert(false);
            0
        },
    };
    let ghost t = trimmed@;
    let prefix = slice_subrange(trimmed, 0, p);
    let reply_bulk = slice_subrange(trimmed, p + 2, trimmed.len());
    proof {
        lemma_split_at_ascii(t, p as int);
        let u = t.subrange(p + 1, t.len() as int);
        lemma_split_at_ascii(u, 0);
        assert(u.subrange(1, u.len() as int) =~= reply_bulk@);
    }
    let overhead = prefix.len() + 5;
    let room = MAX_MSG_SIZE - overhead;
    proof {
        lemma_last_space(reply_bulk@, room as int);
    }
    if let Some(space_index) = rfind_space_index(reply_bulk, room) {
        proof {
            lemma_split_at_ascii(reply_bulk@, space_index as int);
        }
        let chunk = slice_subrange(reply_bulk, 0, space_index);
        let remainder = slice_subrange(reply_bulk, space_index + 1, reply_bulk.len());
        (make_line(prefix, chunk), Some(make_line(prefix, remainder)))
    } else {
        let chunk = slice_subrange(reply_bulk, 0, room);
        let remainder = slice_subrange(reply_bulk, room, reply_bulk.len());
        (make_line(prefix, chunk), Some(make_line(prefix, remainder)))
    }
}


/// A reply that `split` cuts in two yields a first line of at most 510
/// bytes, so that it fits in a protocol line with its CR LF, and both lines
/// start with the `:<prefix> :` of the reply.
pub proof fn law_split_first_line_fits(b: Seq<u8>)
    requires
        spec_split(b) matches Some((_, Some(_))),
    ensures
        (spec_split(b)->0).0.len() <= MAX_MSG_SIZE - 2,
        ({
            let t = b.subrange(1, b.len() as int);
            let p = colon_sep(t)->0;
            let head = seq![58u8] + t.subrange(0, p) + seq![32u8, 58u8];
            &&& (spec_split(b)->0).0.subrange(0, head.len() as int) == head
            &&& ((spec_split(b)->0).1->0).subrange(0, head.len() as int) == head
        }),
{
    let t = b.subrange(1, b.len() as int);
    let p = colon_sep(t)->0;
    let prefix = t.subrange(0, p);
    let bulk = t.subrange(p + 2, t.len() as int);
    let room = MAX_MSG_SIZE - (prefix.len() + 5);
    let head = seq![58u8] + prefix + seq![32u8, 58u8];
    lemma_last_space(bulk, room);
    match last_space_upto(bulk, room) {
        Some(si) => {
            assert((head + bulk.subrange(0, si)).subrange(0, head.len() as int) =~= head);
            assert((head + bulk.subrange(si + 1, bulk.len() as int)).subrange(0, head.len() as int)
                =~= head);
        },
        None => {
            assert((head + bulk.subrange(0, room)).subrange(0, head.len() as int) =~= head);
            assert((head + bulk.subrange(room, bulk.len() as int)).subrange(0, head.len() as int)
                =~= head);
        },
    }
}

/// The channel that a channel reply is about.
pub open spec fn reply_channel(r: &Reply) -> Option<Seq<char>> {
    match r {
        Reply::ListReply(chan, _, _) => Some(chan@),
        Reply::NoTopic(chan) => Some(chan@),
        Reply::Topic(chan, _) => Some(chan@),
        Reply::TopicSetBy(chan, _, _) => Some(chan@),
        Reply::NameReply(chan, _) => Some(chan@),
        Reply::EndofNames(chan) => Some(chan@),
        _ => None,
    }
}

/// `RPL_TOPIC` for channel `chan` and topic `text` reads
/// `:<server> 332 <recipient> <chan> :<text>`: the channel comes first and
/// the topic is the trailing parameter.
pub proof fn law_topic_reply(chan: String, text: String, server: Seq<char>, recipient: Seq<char>)
    ensures
        spec_body(&Reply::Topic(chan, text)) == Some(chan@ + " :"@ + text@),
        spec_format(&Reply::Topic(chan, text), server, recipient) == ":"@ + server + " 332 "@
            + recipient + " "@ + chan@ + " :"@ + text@,
{
    reveal_strlit(" 332 ");
    reveal_strlit(" ");
    reveal_strlit("332");
    reveal_with_fuel(decimal, 4);
    assert(decimal(332) =~= seq!['3', '3', '2']);
    assert(pad3(332) =~= "332"@);
    assert(spec_format(&Reply::Topic(chan, text), server, recipient) =~= ":"@ + server + " 332 "@
        + recipient + " "@ + chan@ + " :"@ + text@);
}

/// Every reply about a channel has a body that starts with the channel's
/// name followed by a space: the channel is the first parameter after the
/// recipient.
pub proof fn law_channel_replies_lead_with_the_channel(r: &Reply)
    requires
        reply_channel(r) is Some,
    ensures
        ({
            let chan = reply_channel(r)->0;
            let b = spec_body(r)->0;
            &&& spec_body(r) is Some
            &&& b.len() > chan.len()
            &&& b.subrange(0, chan.len() as int) == chan
            &&& b[chan.len() as int] == ' '
        }),
{
    let chan = reply_channel(r)->0;
    let b = spec_body(r)->0;
    match r {
        Reply::ListReply(_, n, topic_opt) => {
            reveal_strlit(" ");
            reveal_strlit(" :");
            match topic_opt {
                Some(t) => {
                    assert(b =~= chan + (" "@ + decimal(*n as nat) + " :"@ + t.text@));
                },
                None => {
                    assert(b =~= chan + (" "@ + decimal(*n as nat)));
                },
            }
        },
        Reply::NoTopic(_) => {
            reveal_strlit(" :No topic is set.");
            assert(b =~= chan + " :No topic is set."@);
        },
        Reply::Topic(_, t) => {
            reveal_strlit(" :");
            assert(b =~= chan + (" :"@ + t@));
        },
        Reply::TopicSetBy(_, mask, ts) => {
            reveal_strlit(" ");
            assert(b =~= chan + (" "@ + mask@ + " "@ + signed_decimal(*ts as int)));
        },
        Reply::NameReply(_, nicks) => {
            reveal_strlit(" :");
            assert(b =~= chan + (" :"@ + join(string_views(nicks@), " "@)));
        },
        Reply::EndofNames(_) => {
            reveal_strlit(" :End of /NAMES list");
            assert(b =~= chan + " :End of /NAMES list"@);
        },
        _ => {},
    }
    assert(b.subrange(0, chan.len() as int) =~= chan);
}

} // verus!
