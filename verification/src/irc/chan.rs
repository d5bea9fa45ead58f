//! Channel data: membership flags, topics and channel errors.
use crate::clock::unix_seconds;
use crate::irc::error::{Error, ErrorView};
use crate::irc::prefix::{assemble_prefix, spec_assemble_prefix};
use crate::irc::reply::{Reply, ReplyView};
use crate::server::{user_alive, user_prefix, with_names, Core, CoreView, User, UserView};
use crate::text::{lemma_str_lt_total, lemma_str_lt_trans, owned, str_less, str_lt};
use vstd::prelude::*;
use vstd::string::*;

verus! {

/// The privilege of a user on a channel.
#[derive(Debug, Clone, Copy, PartialEq, Eq, Structural)]
pub enum ChanFlags {
    Plain,
    Voice,
    Op,
}

/// A channel topic: its text, who set it and when (seconds since the epoch).
#[derive(Debug)]
pub struct ChanTopic {
    pub text: String,
    pub usermask: String,
    pub timestamp: i64,
}

impl ChanTopic {
    /// A copy with the same text, usermask and timestamp.
    pub fn clone(&self) -> (res: ChanTopic)
        ensures
            res.text@ == self.text@,
            res.usermask@ == self.usermask@,
            res.timestamp == self.timestamp,
    {
        ChanTopic {
            text: self.text.clone(),
            usermask: self.usermask.clone(),
            timestamp: self.timestamp,
        }
    }
}

/// Why a user could not be linked to or unlinked from a channel.
#[derive(Debug)]
pub enum ChanError {
    LinkFailed(String, String),
    UnlinkFailed(String, String),
}

impl ChanError {
    /// A sentence that describes the error.
    pub fn to_string(&self) -> (res: String)
        ensures
            res@ == match self {
                ChanError::LinkFailed(nick, chan) => "couldn't add "@ + nick@ + " to "@ + chan@
                    + " channel list"@,
                ChanError::UnlinkFailed(nick, chan) => "couldn't remove "@ + nick@ + " from "@
                    + chan@ + " channel list"@,
            },
    {
        let mut s = String::new();
        match self {
            ChanError::LinkFailed(nick, chan) => {
                s.append("couldn't add ");
                s.append(nick.as_str());
                s.append(" to ");
                s.append(chan.as_str());
                s.append(" channel list");
            },
            ChanError::UnlinkFailed(nick, chan) => {
                s.append("couldn't remove ");
                s.append(nick.as_str());
                s.append(" from ");
                s.append(chan.as_str());
                s.append(" channel list");
            },
        }
        s
    }
}


// ---------------------------------------------------------------------------
// channels

/// A member of a channel: the id of the user and their privilege there.
#[derive(Debug, Clone, Copy, PartialEq, Eq, Structural)]
pub struct ChanUser {
    pub user_id: u64,
    pub chan_flags: ChanFlags,
}

impl ChanUser {
    /// The membership of `user` with `flags`.
    pub fn new(user: &User, flags: ChanFlags) -> (res: ChanUser)
        ensures
            res == (ChanUser { user_id: user@.id, chan_flags: flags }),
    {
        ChanUser { user_id: user.get_id(), chan_flags: flags }
    }
}

/// A topic as text.
pub struct ChanTopicView {
    pub text: Seq<char>,
    pub usermask: Seq<char>,
    pub timestamp: i64,
}

/// The topic `text` set by `usermask` at the clock reading `now`; its
/// timestamp is 0 when there is no reading.
pub open spec fn topic_at(text: Seq<char>, usermask: Seq<char>, now: Option<i64>) -> ChanTopicView {
    ChanTopicView {
        text,
        usermask,
        timestamp: match now {
            Some(s) => s,
            None => 0,
        },
    }
}

impl View for ChanTopic {
    type V = ChanTopicView;

    open spec fn view(&self) -> ChanTopicView {
        ChanTopicView { text: self.text@, usermask: self.usermask@, timestamp: self.timestamp }
    }
}

/// The members of a channel by nick, in the order of the nicks.
pub type Members = Seq<(Seq<char>, ChanUser)>;

/// The nicks are strictly increasing.
pub open spec fn sorted_members(m: Members) -> bool {
    forall|i: int, j: int| 0 <= i < j < m.len() ==> str_lt(#[trigger] m[i].0, #[trigger] m[j].0)
}

/// Some member goes by `k`.
pub open spec fn has_member(m: Members, k: Seq<char>) -> bool {
    exists|i: int| 0 <= i < m.len() && #[trigger] m[i].0 == k
}

/// The position of the member who goes by `k` (meaningful when there is one).
pub open spec fn member_pos(m: Members, k: Seq<char>) -> int {
    choose|i: int| 0 <= i < m.len() && #[trigger] m[i].0 == k
}

/// Where `k` goes among sorted members: after every nick that comes before it.
pub open spec fn insert_pos(m: Members, k: Seq<char>) -> int
    decreases m.len(),
{
    if m.len() == 0 {
        0
    } else if str_lt(m.last().0, k) {
        m.len() as int
    } else {
        insert_pos(m.drop_last(), k)
    }
}

/// The members with `k` going with `v`: replaced in place, or added in
/// order.
pub open spec fn members_insert(m: Members, k: Seq<char>, v: ChanUser) -> Members {
    if has_member(m, k) {
        m.update(member_pos(m, k), (k, v))
    } else {
        m.insert(insert_pos(m, k), (k, v))
    }
}

/// The members without the one who goes by `k`.
pub open spec fn members_remove(m: Members, k: Seq<char>) -> Members {
    if has_member(m, k) {
        m.remove(member_pos(m, k))
    } else {
        m
    }
}

/// In sorted members the position of a nick is the only one holding it.
pub proof fn lemma_member_pos(m: Members, k: Seq<char>, i: int)
    requires
        sorted_members(m),
        0 <= i < m.len(),
        m[i].0 == k,
    ensures
        has_member(m, k),
        member_pos(m, k) == i,
{
    assert(has_member(m, k));
    let j = member_pos(m, k);
    if j < i {
        assert(str_lt(m[j].0, m[i].0));
        lemma_str_lt_total(k, k);
    } else if j > i {
        assert(str_lt(m[i].0, m[j].0));
        lemma_str_lt_total(k, k);
    }
}

/// The insertion position is the first position whose nick does not come
/// before `k`.
pub proof fn lemma_insert_pos(m: Members, k: Seq<char>, i: int)
    requires
        sorted_members(m),
        0 <= i <= m.len(),
        forall|j: int| 0 <= j < i ==> str_lt(#[trigger] m[j].0, k),
        i < m.len() ==> !str_lt(m[i].0, k),
    ensures
        insert_pos(m, k) == i,
    decreases m.len(),
{
    if m.len() > 0 {
        if i == m.len() {
            assert(str_lt(m[m.len() - 1].0, k));
        } else {
            if str_lt(m.last().0, k) {
                if i < m.len() - 1 {
                    assert(str_lt(m[i].0, m[m.len() - 1].0));
                    lemma_str_lt_trans(m[i].0, m[m.len() - 1].0, k);
                }
            }
            let d = m.drop_last();
            assert forall|a: int, b: int| 0 <= a < b < d.len() implies str_lt(
                #[trigger] d[a].0,
                #[trigger] d[b].0,
            ) by {
                assert(str_lt(m[a].0, m[b].0));
            }
            assert forall|j: int| 0 <= j < i implies str_lt(#[trigger] d[j].0, k) by {
                assert(str_lt(m[j].0, k));
            }
            lemma_insert_pos(d, k, i);
        }
    }
}

/// Taking a member out keeps the rest in order.
pub proof fn lemma_remove_sorted(m: Members, i: int)
    requires
        sorted_members(m),
        0 <= i < m.len(),
    ensures
        sorted_members(m.remove(i)),
{
    let r = m.remove(i);
    assert forall|a: int, b: int| 0 <= a < b < r.len() implies str_lt(#[trigger] r[a].0, #[trigger] r[b].0) by {
        let a2 = if a < i { a } else { a + 1 };
        let b2 = if b < i { b } else { b + 1 };
        assert(r[a] == m[a2]);
        assert(r[b] == m[b2]);
        assert(str_lt(m[a2].0, m[b2].0));
    }
}

/// The privilege badge written before a nick in a names list.
pub open spec fn badge(f: ChanFlags) -> Seq<char> {
    match f {
        ChanFlags::Plain => Seq::empty(),
        ChanFlags::Voice => seq!['+'],
        ChanFlags::Op => seq!['@'],
    }
}

/// The names list of a channel: each nick with its badge, in order.
pub open spec fn nick_list(m: Members) -> Seq<Seq<char>> {
    m.map_values(|e: (Seq<char>, ChanUser)| badge(e.1.chan_flags) + e.0)
}

/// The members after a nick change from `old_nick` to `new_nick`: a member
/// keyed by the bare nick is put back under the same key; one keyed by
/// `+<nick>` or `@<nick>` moves to the new nick with its badge; `None` when
/// the nick is on the channel under none of these keys.
pub open spec fn nick_moved(m: Members, old_nick: Seq<char>, new_nick: Seq<char>) -> Option<Members> {
    if has_member(m, old_nick) {
        Some(members_insert(members_remove(m, old_nick), old_nick, m[member_pos(m, old_nick)].1))
    } else if has_member(m, seq!['+'] + old_nick) {
        let k = seq!['+'] + old_nick;
        Some(members_insert(members_remove(m, k), seq!['+'] + new_nick, m[member_pos(m, k)].1))
    } else if has_member(m, seq!['@'] + old_nick) {
        let k = seq!['@'] + old_nick;
        Some(members_insert(members_remove(m, k), seq!['@'] + new_nick, m[member_pos(m, k)].1))
    } else {
        None
    }
}

/// A channel as mathematics.
pub struct ChannelView {
    pub name: Seq<char>,
    pub topic: Option<ChanTopicView>,
    pub members: Members,
    pub banmasks: Seq<Seq<char>>,
}

/// A channel: its name, its topic, its members by nick and its ban masks.
pub struct Channel {
    name: String,
    topic: Option<ChanTopic>,
    users: Vec<(String, ChanUser)>,
    banmasks: Vec<String>,
}

impl View for Channel {
    type V = ChannelView;

    closed spec fn view(&self) -> ChannelView {
        ChannelView {
            name: self.name@,
            topic: match self.topic {
                Some(t) => Some(t@),
                None => None,
            },
            members: self.users@.map_values(|e: (String, ChanUser)| (e.0@, e.1)),
            banmasks: self.banmasks@.map_values(|s: String| s@),
        }
    }
}

impl Channel {
    #[verifier::type_invariant]
    closed spec fn inv(self) -> bool {
        sorted_members(self@.members)
    }

    /// A new channel named `chanmask`, without topic or members.
    pub fn new(chanmask: &str) -> (res: Channel)
        ensures
            res@.name == chanmask@,
            res@.topic is None,
            res@.members == Seq::<(Seq<char>, ChanUser)>::empty(),
            res@.banmasks == Seq::<Seq<char>>::empty(),
    {
        let c = Channel { name: owned(chanmask), topic: None, users: Vec::new(), banmasks: Vec::new() };
        assert(c@.members =~= Seq::<(Seq<char>, ChanUser)>::empty());
        assert(c@.banmasks =~= Seq::<Seq<char>>::empty());
        c
    }

    pub fn get_name(&self) -> (res: String)
        ensures
            res@ == self@.name,
    {
        self.name.clone()
    }

    /// The number of members.
    pub fn get_n_users(&self) -> (res: usize)
        ensures
            res == self@.members.len(),
    {
        self.users.len()
    }

    /// Whether the channel has no members.
    pub fn is_empty(&self) -> (res: bool)
        ensures
            res == (self@.members.len() == 0),
    {
        self.users.len() == 0
    }

    /// A copy of the topic, if one is set.
    pub fn get_topic(&self) -> (res: Option<ChanTopic>)
        ensures
            match res {
                Some(t) => self@.topic == Some(t@),
                None => self@.topic is None,
            },
    {
        match &self.topic {
            Some(t) => Some(t.clone()),
            None => None,
        }
    }

    /// The position of the member who goes by `key`, if any.
    fn position(&self, key: &str) -> (res: Option<usize>)
        ensures
            match res {
                Some(i) => i < self@.members.len() && self@.members[i as int].0 == key@
                    && member_pos(self@.members, key@) == i && has_member(self@.members, key@),
                None => !has_member(self@.members, key@),
            },
    {
        proof {
            use_type_invariant(self);
        }
        let k = owned(key);
        let mut i: usize = 0;
        while i < self.users.len()
            invariant
                i <= self.users@.len(),
                k@ == key@,
                self@.members.len() == self.users@.len(),
                sorted_members(self@.members),
                forall|j: int| 0 <= j < i ==> self@.members[j].0 != key@,
            decreases self.users@.len() - i,
        {
            assert(self@.members[i as int].0 == self.users@[i as int].0@);
            if self.users[i].0 == k {
                proof {
                    lemma_member_pos(self@.members, key@, i as int);
                }
                return Some(i);
            }
            i += 1;
        }
        None
    }

    /// Whether someone goes by `nick` on the channel.
    pub fn is_joined(&self, nick: &str) -> (res: bool)
        ensures
            res == has_member(self@.members, nick@),
    {
        self.position(nick).is_some()
    }

    /// Whether the key `@<nick>` of `user` is on the channel.
    pub fn is_op(&self, user: &User) -> (res: bool)
        ensures
            res == has_member(self@.members, seq!['@'] + user@.nick),
    {
        let mut op = String::new();
        op.append("@");
        let nick = user.get_nick();
        op.append(nick.as_str());
        proof {
            reveal_strlit("@");
        }
        assert(op@ =~= seq!['@'] + user@.nick);
        self.position(op.as_str()).is_some()
    }

    /// The nicks of the members with their badges, in order.
    pub fn get_nick_list(&self) -> (res: Vec<String>)
        ensures
            res@.map_values(|s: String| s@) == nick_list(self@.members),
    {
        let mut out: Vec<String> = Vec::new();
        let mut i: usize = 0;
        while i < self.users.len()
            invariant
                i <= self.users@.len(),
                self@.members.len() == self.users@.len(),
                out@.map_values(|s: String| s@) == nick_list(self@.members).subrange(0, i as int),
            decreases self.users@.len() - i,
        {
            let e = &self.users[i];
            assert(self@.members[i as int] == (e.0@, e.1));
            let mut s = String::new();
            match e.1.chan_flags {
                ChanFlags::Plain => {},
                ChanFlags::Voice => {
                    s.append("+");
                },
                ChanFlags::Op => {
                    s.append("@");
                },
            }
            s.append(e.0.as_str());
            proof {
                reveal_strlit("+");
                reveal_strlit("@");
            }
            assert(s@ =~= badge(self@.members[i as int].1.chan_flags) + self@.members[i as int].0);
            let ghost before = out@.map_values(|s: String| s@);
            assert(nick_list(self@.members)[i as int] == s@);
            out.push(s);
            assert(out@.map_values(|s: String| s@) =~= before.push(s@));
            assert(out@.map_values(|s: String| s@) =~= nick_list(self@.members).subrange(0, i as int + 1));
            i += 1;
        }
        assert(nick_list(self@.members).subrange(0, i as int) =~= nick_list(self@.members));
        out
    }

    /// The names list (see `get_nick_list`).
    pub fn get_names_list(&self) -> (res: Vec<String>)
        ensures
            res@.map_values(|s: String| s@) == nick_list(self@.members),
    {
        self.get_nick_list()
    }

    /// Takes the member who goes by `key` out.
    pub fn rm_key(&mut self, key: &str) -> (res: Option<ChanUser>)
        ensures
            final(self)@ == (ChannelView { members: members_remove(old(self)@.members, key@), ..old(self)@ }),
            match res {
                Some(v) => has_member(old(self)@.members, key@) && v == old(self)@.members[member_pos(
                    old(self)@.members,
                    key@,
                )].1,
                None => !has_member(old(self)@.members, key@),
            },
    {
        proof {
            use_type_invariant(&*self);
        }
        match self.position(key) {
            Some(i) => {
                let ghost m = self@.members;
                proof {
                    lemma_remove_sorted(m, i as int);
                }
                let mut users: Vec<(String, ChanUser)> = Vec::new();
                std::mem::swap(&mut users, &mut self.users);
                let (_, v) = users.remove(i);
                assert(users@.map_values(|e: (String, ChanUser)| (e.0@, e.1)) =~= m.remove(i as int));
                self.users = users;
                Some(v)
            },
            None => None,
        }
    }

    /// Puts `key` with `v` among the members: replacing the value when the
    /// key is there, in order otherwise.
    fn insert_member(&mut self, key: String, v: ChanUser)
        ensures
            final(self)@ == (ChannelView { members: members_insert(old(self)@.members, key@, v), ..old(self)@ }),
    {
        proof {
            use_type_invariant(&*self);
        }
        let ghost m = self@.members;
        let ghost k = key@;
        let mut i: usize = 0;
        while i < self.users.len() && str_less(self.users[i].0.as_str(), key.as_str())
            invariant
                i <= self.users@.len(),
                m == self@.members,
                k == key@,
                m.len() == self.users@.len(),
                sorted_members(m),
                forall|j: int| 0 <= j < i ==> str_lt(#[trigger] m[j].0, k),
            decreases self.users@.len() - i,
        {
            assert(m[i as int].0 == self.users@[i as int].0@);
            i += 1;
        }
        proof {
            if i < m.len() {
                assert(m[i as int].0 == self.users@[i as int].0@);
            }
            lemma_insert_pos(m, k, i as int);
        }
        let mut users: Vec<(String, ChanUser)> = Vec::new();
        std::mem::swap(&mut users, &mut self.users);
        let same = i < users.len() && users[i].0 == key;
        if same {
            proof {
                lemma_member_pos(m, k, i as int);
            }
            users.set(i, (key, v));
            let ghost nm = users@.map_values(|e: (String, ChanUser)| (e.0@, e.1));
            assert(nm =~= m.update(i as int, (k, v)));
            assert forall|a: int, b: int| 0 <= a < b < nm.len() implies str_lt(#[trigger] nm[a].0, #[trigger] nm[b].0) by {
                assert(str_lt(m[a].0, m[b].0));
            }
        } else {
            proof {
                if has_member(m, k) {
                    let p = member_pos(m, k);
                    if p < i {
                        assert(str_lt(m[p].0, k));
                        lemma_str_lt_total(k, k);
                    } else if p > i {
                        assert(str_lt(m[i as int].0, m[p].0));
                        lemma_str_lt_total(m[i as int].0, k);
                    }
                }
                if (i as int) < m.len() {
                    lemma_str_lt_total(m[i as int].0, k);
                }
            }
            users.insert(i, (key, v));
            let ghost nm = users@.map_values(|e: (String, ChanUser)| (e.0@, e.1));
            assert(nm =~= m.insert(i as int, (k, v)));
            assert forall|a: int, b: int| 0 <= a < b < nm.len() implies str_lt(#[trigger] nm[a].0, #[trigger] nm[b].0) by {
                if b < i {
                    assert(str_lt(m[a].0, m[b].0));
                } else if b == i {
                    assert(str_lt(m[a].0, k));
                } else if a == i {
                    assert(nm[b] == m[b - 1]);
                    if b - 1 > i {
                        assert(str_lt(m[i as int].0, m[b - 1].0));
                        lemma_str_lt_trans(k, m[i as int].0, m[b - 1].0);
                    }
                } else if a < i {
                    assert(nm[b] == m[b - 1]);
                    assert(str_lt(m[a].0, m[b - 1].0));
                } else {
                    assert(nm[a] == m[a - 1]);
                    assert(nm[b] == m[b - 1]);
                    assert(str_lt(m[a - 1].0, m[b - 1].0));
                }
            }
        }
        self.users = users;
    }

    /// Follows a member's nick change (see `nick_moved`); a channel without
    /// the member refuses with `NotOnChannel(<channel>)`.
    pub fn update_nick(&mut self, old_nick: &str, new_nick: &str) -> (res: Result<(), Error>)
        ensures
            match nick_moved(old(self)@.members, old_nick@, new_nick@) {
                Some(m) => res is Ok && final(self)@ == (ChannelView { members: m, ..old(self)@ }),
                None => (res matches Err(e) && e@ == ErrorView::NotOnChannel(old(self)@.name))
                    && final(self)@ == old(self)@,
            },
    {
        proof {
            reveal_strlit("+");
            reveal_strlit("@");
        }
        let key = owned(old_nick);
        let mut voice = String::new();
        voice.append("+");
        voice.append(old_nick);
        let mut op = String::new();
        op.append("@");
        op.append(old_nick);
        assert(voice@ =~= seq!['+'] + old_nick@);
        assert(op@ =~= seq!['@'] + old_nick@);
        if let Some(val) = self.rm_key(key.as_str()) {
            self.insert_member(key, val);
            Ok(())
        } else if let Some(val) = self.rm_key(voice.as_str()) {
            let mut new_key = String::new();
            new_key.append("+");
            new_key.append(new_nick);
            assert(new_key@ =~= seq!['+'] + new_nick@);
            self.insert_member(new_key, val);
            Ok(())
        } else if let Some(val) = self.rm_key(op.as_str()) {
            let mut new_key = String::new();
            new_key.append("@");
            new_key.append(new_nick);
            assert(new_key@ =~= seq!['@'] + new_nick@);
            self.insert_member(new_key, val);
            Ok(())
        } else {
            Err(Error::NotOnChannel(self.name.clone()))
        }
    }
}



/// The nicks of some members, in order, without badges.
pub open spec fn member_nicks(m: Members) -> Seq<Seq<char>> {
    m.map_values(|e: (Seq<char>, ChanUser)| e.0)
}

/// The key under which `nick` is on the channel, trying the bare nick, then
/// `+<nick>`, then `@<nick>`.
pub open spec fn user_key(m: Members, nick: Seq<char>) -> Option<Seq<char>> {
    if has_member(m, nick) {
        Some(nick)
    } else if has_member(m, seq!['+'] + nick) {
        Some(seq!['+'] + nick)
    } else if has_member(m, seq!['@'] + nick) {
        Some(seq!['@'] + nick)
    } else {
        None
    }
}

impl Channel {
    /// The nicks of the members in order, without badges.
    pub fn gen_sorted_nick_list(&self) -> (res: Vec<String>)
        ensures
            res@.map_values(|s: String| s@) == member_nicks(self@.members),
    {
        let mut out: Vec<String> = Vec::new();
        let mut i: usize = 0;
        while i < self.users.len()
            invariant
                i <= self.users@.len(),
                self@.members.len() == self.users@.len(),
                out@.map_values(|s: String| s@) == member_nicks(self@.members).subrange(0, i as int),
            decreases self.users@.len() - i,
        {
            let k = self.users[i].0.clone();
            assert(k@ == self@.members[i as int].0);
            let ghost before = out@.map_values(|s: String| s@);
            out.push(k);
            assert(out@.map_values(|s: String| s@) =~= before.push(k@));
            assert(out@.map_values(|s: String| s@) =~= member_nicks(self@.members).subrange(0, i as int + 1));
            i += 1;
        }
        assert(member_nicks(self@.members).subrange(0, i as int) =~= member_nicks(self@.members));
        out
    }

    /// The key under which `nick` is on the channel (see `user_key`).
    pub fn get_user_key(&self, nick: &str) -> (res: Option<String>)
        ensures
            match res {
                Some(k) => user_key(self@.members, nick@) == Some(k@),
                None => user_key(self@.members, nick@) is None,
            },
    {
        proof {
            reveal_strlit("+");
            reveal_strlit("@");
        }
        let key = owned(nick);
        let mut voice = String::new();
        voice.append("+");
        voice.append(nick);
        let mut op = String::new();
        op.append("@");
        op.append(nick);
        assert(voice@ =~= seq!['+'] + nick@);
        assert(op@ =~= seq!['@'] + nick@);
        if self.is_joined(key.as_str()) {
            Some(key)
        } else if self.is_joined(voice.as_str()) {
            Some(voice)
        } else if self.is_joined(op.as_str()) {
            Some(op)
        } else {
            None
        }
    }
}

// ---------------------------------------------------------------------------
// channel traffic

/// The members whose users are still there, in order.
pub open spec fn live_members(c: CoreView, m: Members) -> Members
    decreases m.len(),
{
    if m.len() == 0 {
        m
    } else {
        let r = live_members(c, m.drop_last());
        if user_alive(c, m.last().1.user_id) {
            r.push(m.last())
        } else {
            r
        }
    }
}

/// The live members are members, and stay in order.
proof fn lemma_live_members(c: CoreView, m: Members)
    requires
        sorted_members(m),
    ensures
        sorted_members(live_members(c, m)),
        forall|x: (Seq<char>, ChanUser)| #[trigger] live_members(c, m).contains(x) ==> m.contains(x),
    decreases m.len(),
{
    if m.len() > 0 {
        let d = m.drop_last();
        assert forall|a: int, b: int| 0 <= a < b < d.len() implies str_lt(#[trigger] d[a].0, #[trigger] d[b].0) by {
            assert(str_lt(m[a].0, m[b].0));
        }
        lemma_live_members(c, d);
        let r = live_members(c, d);
        assert forall|x: (Seq<char>, ChanUser)| #[trigger] live_members(c, m).contains(x) implies m.contains(x) by {
            if r.contains(x) {
                let j = choose|j: int| 0 <= j < d.len() && d[j] == x;
                assert(m[j] == x);
            } else {
                assert(m[m.len() - 1] == x);
            }
        }
        if user_alive(c, m.last().1.user_id) {
            let f = r.push(m.last());
            assert forall|a: int, b: int| 0 <= a < b < f.len() implies str_lt(#[trigger] f[a].0, #[trigger] f[b].0) by {
                if b == r.len() {
                    assert(r.contains(r[a]));
                    let j = choose|j: int| 0 <= j < d.len() && d[j] == r[a];
                    assert(str_lt(m[j].0, m[m.len() - 1].0));
                } else {
                    assert(str_lt(r[a].0, r[b].0));
                }
            }
        }
    }
}

/// Whether a member's user is told about a message on the channel: all but
/// the sender, and the sender too for `JOIN` and `PART`.
pub open spec fn told(e: (Seq<char>, ChanUser), source: UserView, cmd: Seq<char>) -> bool {
    e.1.user_id != source.id || cmd == "JOIN"@ || cmd == "PART"@
}

/// The ids of the members who are told, in order.
pub open spec fn recipients(m: Members, source: UserView, cmd: Seq<char>) -> Seq<u64>
    decreases m.len(),
{
    if m.len() == 0 {
        Seq::empty()
    } else {
        let r = recipients(m.drop_last(), source, cmd);
        if told(m.last(), source, cmd) {
            r.push(m.last().1.user_id)
        } else {
            r
        }
    }
}

/// The line sent on the channel: `:<prefix> <cmd> <target>[ :<msg>]`.
pub open spec fn chan_line(source: UserView, cmd: Seq<char>, target: Seq<char>, msg: Seq<char>) -> Seq<char> {
    let head = ":"@ + spec_assemble_prefix(user_prefix(source)) + " "@ + cmd + " "@ + target;
    if msg.len() == 0 {
        head
    } else {
        head + " :"@ + msg
    }
}

/// The same line for each recipient.
pub open spec fn lines_to(ids: Seq<u64>, line: Seq<char>) -> Seq<(u64, Seq<char>)> {
    ids.map_values(|id: u64| (id, line))
}

/// What sending on channel `ch` does: the channel with its stale members
/// dropped, the lines to deliver, and whether the sender may send (a
/// sender who is not on the channel sends nothing and changes nothing).
pub open spec fn spec_send(
    c: CoreView,
    ch: ChannelView,
    source: UserView,
    cmd: Seq<char>,
    target: Seq<char>,
    msg: Seq<char>,
) -> (ChannelView, Seq<(u64, Seq<char>)>, bool) {
    if has_member(ch.members, source.nick) {
        let live = live_members(c, ch.members);
        (
            ChannelView { members: live, ..ch },
            lines_to(recipients(live, source, cmd), chan_line(source, cmd, target, msg)),
            true,
        )
    } else {
        (ch, Seq::empty(), false)
    }
}

/// The lines of some deliveries.
pub open spec fn line_views(v: Seq<(u64, String)>) -> Seq<(u64, Seq<char>)> {
    v.map_values(|d: (u64, String)| (d.0, d.1@))
}

impl Channel {
    /// Sets the topic to `topic_text`, as set by `user` at the clock reading
    /// `now` (seconds since 1970); the timestamp is 0 when there is no
    /// reading.
    pub fn set_topic_at(&mut self, topic_text: &str, user: &User, now: Option<i64>)
        ensures
            final(self)@.topic == Some(
                topic_at(topic_text@, spec_assemble_prefix(user_prefix(user@)), now),
            ),
            final(self)@.name == old(self)@.name,
            final(self)@.members == old(self)@.members,
            final(self)@.banmasks == old(self)@.banmasks,
    {
        proof {
            use_type_invariant(&*self);
        }
        let usermask = assemble_prefix(user.get_prefix());
        let timestamp: i64 = match now {
            Some(s) => s,
            None => 0,
        };
        let topic = ChanTopic { text: owned(topic_text), usermask, timestamp };
        self.topic = Some(topic);
    }

    /// Sets the topic to `topic_text`, as set by `user` now: `set_topic_at`
    /// with the clock's reading, whose timestamp is not negative.
    pub fn set_topic(&mut self, topic_text: &str, user: &User)
        ensures
            exists|now: Option<i64>|
                (now matches Some(s) ==> s >= 0) && final(self)@.topic == Some(
                    #[trigger] topic_at(topic_text@, spec_assemble_prefix(user_prefix(user@)), now),
                ),
            final(self)@.name == old(self)@.name,
            final(self)@.members == old(self)@.members,
            final(self)@.banmasks == old(self)@.banmasks,
    {
        let now = unix_seconds();
        self.set_topic_at(topic_text, user, now);
        assert(now matches Some(s) ==> s >= 0);
    }

    /// The ids of the members whose users are still there, in order; the
    /// others are dropped from the channel.
    pub fn gen_user_ptr_vec(&mut self, core: &Core) -> (res: Vec<u64>)
        ensures
            final(self)@ == (ChannelView { members: live_members(core@, old(self)@.members), ..old(self)@ }),
            res@ == live_members(core@, old(self)@.members).map_values(|e: (Seq<char>, ChanUser)| e.1.user_id),
    {
        proof {
            use_type_invariant(&*self);
        }
        let ghost m = self@.members;
        let ghost c = core@;
        let mut users: Vec<(String, ChanUser)> = Vec::new();
        std::mem::swap(&mut users, &mut self.users);
        let mut kept: Vec<(String, ChanUser)> = Vec::new();
        let mut ids: Vec<u64> = Vec::new();
        let n = users.len();
        let mut i: usize = 0;
        assert(m.subrange(0, 0) =~= Seq::<(Seq<char>, ChanUser)>::empty());
        assert(kept@.map_values(|e: (String, ChanUser)| (e.0@, e.1)) =~= Seq::<(Seq<char>, ChanUser)>::empty());
        assert(ids@ =~= Seq::<u64>::empty());
        while i < n
            invariant
                n == users@.len(),
                m == users@.map_values(|e: (String, ChanUser)| (e.0@, e.1)),
                c == core@,
                i <= n,
                kept@.map_values(|e: (String, ChanUser)| (e.0@, e.1)) == live_members(c, m.subrange(0, i as int)),
                ids@ == live_members(c, m.subrange(0, i as int)).map_values(|e: (Seq<char>, ChanUser)| e.1.user_id),
            decreases n - i,
        {
            let ghost pre = m.subrange(0, i as int + 1);
            assert(pre.drop_last() =~= m.subrange(0, i as int));
            assert(pre.last() == m[i as int]);
            let uid = users[i].1.user_id;
            if core.user_alive(uid) {
                let ghost kv = kept@.map_values(|e: (String, ChanUser)| (e.0@, e.1));
                let ghost iv = ids@;
                let e = (users[i].0.clone(), users[i].1);
                kept.push(e);
                ids.push(uid);
                assert(kept@.map_values(|e: (String, ChanUser)| (e.0@, e.1)) =~= kv.push(m[i as int]));
                assert(ids@ =~= iv.push(uid));
                assert(live_members(c, pre).map_values(|e: (Seq<char>, ChanUser)| e.1.user_id) =~= live_members(c, m.subrange(0, i as int)).map_values(|e: (Seq<char>, ChanUser)| e.1.user_id).push(uid));
            }
            i += 1;
        }
        assert(m.subrange(0, n as int) =~= m);
        proof {
            lemma_live_members(c, m);
        }
        self.users = kept;
        ids
    }

    /// Sends `cmd` from `source` to the channel's members (see `spec_send`):
    /// gives the lines to deliver, and `NoReply`, or `CannotSendToChan` for
    /// a sender who is not on the channel.
    pub fn send_msg(&mut self, core: &Core, source: &User, cmd: &str, target: &str, msg: &str) -> (res: (
        Vec<(u64, String)>,
        Result<Reply, Error>,
    ))
        ensures
            ({
                let (ch, lines, ok) = spec_send(core@, old(self)@, source@, cmd@, target@, msg@);
                &&& final(self)@ == ch
                &&& line_views(res.0@) == lines
                &&& if ok {
                    res.1 matches Ok(r) && r@ == ReplyView::NoReply
                } else {
                    res.1 matches Err(e) && e@ == ErrorView::CannotSendToChan(target@)
                }
            }),
    {
        let mut line = String::new();
        line.append(":");
        let prefix = assemble_prefix(source.get_prefix());
        line.append(prefix.as_str());
        line.append(" ");
        line.append(cmd);
        line.append(" ");
        line.append(target);
        if msg.unicode_len() != 0 {
            line.append(" :");
            line.append(msg);
        }
        proof {
            reveal_strlit(":");
            reveal_strlit(" ");
            reveal_strlit(" :");
            reveal_strlit("JOIN");
            reveal_strlit("PART");
        }
        assert(line@ =~= chan_line(source@, cmd@, target@, msg@));
        let nick = source.get_nick();
        if !self.is_joined(nick.as_str()) {
            let none: Vec<(u64, String)> = Vec::new();
            assert(line_views(none@) =~= Seq::<(u64, Seq<char>)>::empty());
            return (none, Err(Error::CannotSendToChan(owned(target))));
        }
        let ghost c = core@;
        let ids = self.gen_user_ptr_vec(core);
        let ghost live = self@.members;
        let also_self = cmd_is(cmd, "JOIN") || cmd_is(cmd, "PART");
        let mut out: Vec<(u64, String)> = Vec::new();
        let mut i: usize = 0;
        assert(live.subrange(0, 0) =~= Seq::<(Seq<char>, ChanUser)>::empty());
        assert(line_views(out@) =~= Seq::<(u64, Seq<char>)>::empty());
        while i < ids.len()
            invariant
                ids@ == live.map_values(|e: (Seq<char>, ChanUser)| e.1.user_id),
                i <= ids@.len(),
                also_self == (cmd@ == "JOIN"@ || cmd@ == "PART"@),
                line_views(out@) == lines_to(recipients(live.subrange(0, i as int), source@, cmd@), line@),
            decreases ids@.len() - i,
        {
            let ghost pre = live.subrange(0, i as int + 1);
            assert(pre.drop_last() =~= live.subrange(0, i as int));
            assert(pre.last() == live[i as int]);
            let uid = ids[i];
            if uid != source.get_id() || also_self {
                let ghost before = line_views(out@);
                let ghost r0 = recipients(live.subrange(0, i as int), source@, cmd@);
                out.push((uid, line.clone()));
                assert(line_views(out@) =~= before.push((uid, line@)));
                assert(lines_to(r0.push(uid), line@) =~= lines_to(r0, line@).push((uid, line@)));
            }
            i += 1;
        }
        assert(live.subrange(0, ids@.len() as int) =~= live);
        (out, Ok(Reply::NoReply))
    }

    /// Tells the channel that `source` joined it.
    pub fn notify_join(&mut self, core: &Core, source: &User, chan: &str) -> (res: (
        Vec<(u64, String)>,
        Result<Reply, Error>,
    ))
        ensures
            ({
                let (ch, lines, ok) = spec_send(core@, old(self)@, source@, "JOIN"@, chan@, Seq::empty());
                &&& final(self)@ == ch
                &&& line_views(res.0@) == lines
                &&& if ok {
                    res.1 matches Ok(r) && r@ == ReplyView::NoReply
                } else {
                    res.1 matches Err(e) && e@ == ErrorView::CannotSendToChan(chan@)
                }
            }),
    {
        proof {
            reveal_strlit("");
        }
        self.send_msg(core, source, "JOIN", chan, "")
    }

    /// Tells the channel that `source` left it, with a message.
    pub fn notify_part(&mut self, core: &Core, source: &User, chan: &str, msg: &str) -> (res: (
        Vec<(u64, String)>,
        Result<Reply, Error>,
    ))
        ensures
            ({
                let (ch, lines, ok) = spec_send(core@, old(self)@, source@, "PART"@, chan@, msg@);
                &&& final(self)@ == ch
                &&& line_views(res.0@) == lines
                &&& if ok {
                    res.1 matches Ok(r) && r@ == ReplyView::NoReply
                } else {
                    res.1 matches Err(e) && e@ == ErrorView::CannotSendToChan(chan@)
                }
            }),
    {
        self.send_msg(core, source, "PART", chan, msg)
    }

    /// Tells the channel that `source` quit, with a message.
    pub fn notify_quit(&mut self, core: &Core, source: &User, chan: &str, msg: &str) -> (res: (
        Vec<(u64, String)>,
        Result<Reply, Error>,
    ))
        ensures
            ({
                let (ch, lines, ok) = spec_send(core@, old(self)@, source@, "QUIT"@, chan@, msg@);
                &&& final(self)@ == ch
                &&& line_views(res.0@) == lines
                &&& if ok {
                    res.1 matches Ok(r) && r@ == ReplyView::NoReply
                } else {
                    res.1 matches Err(e) && e@ == ErrorView::CannotSendToChan(chan@)
                }
            }),
    {
        self.send_msg(core, source, "QUIT", chan, msg)
    }
}

/// Whether `s` is the text `t`.
fn cmd_is(s: &str, t: &str) -> (res: bool)
    ensures
        res == (s@ == t@),
{
    owned(s) == owned(t)
}


// ---------------------------------------------------------------------------
// joining and leaving

/// The results of some replies, as mathematics.
pub open spec fn reply_results(v: Seq<Result<Reply, Error>>) -> Seq<Result<ReplyView, ErrorView>> {
    v.map_values(
        |r: Result<Reply, Error>|
            match r {
                Ok(x) => Ok(x@),
                Err(e) => Err(e@),
            },
    )
}

/// The replies to a user who joined channel `chan`: the result of the join
/// notice, the topic and who set it (when one is set), the names list and
/// its end.
pub open spec fn join_replies(
    ch: ChannelView,
    chan: Seq<char>,
    notice: Result<ReplyView, ErrorView>,
) -> Seq<Result<ReplyView, ErrorView>> {
    let topic_part = match ch.topic {
        Some(t) => seq![
            Ok(ReplyView::Topic(chan, t.text)),
            Ok(ReplyView::TopicSetBy(chan, t.usermask, t.timestamp)),
        ],
        None => Seq::empty(),
    };
    seq![notice] + topic_part + seq![
        Ok(ReplyView::NameReply(chan, nick_list(ch.members))),
        Ok(ReplyView::EndofNames(chan)),
    ]
}

/// What `u` joining channel `ch` with `flags` does: the channel after, the
/// lines to deliver and the replies. A user who is on the channel already
/// changes nothing and gets no reply.
pub open spec fn spec_add_user(c: CoreView, ch: ChannelView, u: UserView, flags: ChanFlags) -> (
    ChannelView,
    Seq<(u64, Seq<char>)>,
    Seq<Result<ReplyView, ErrorView>>,
) {
    if has_member(ch.members, u.nick) {
        (ch, Seq::empty(), Seq::empty())
    } else {
        let ch1 = ChannelView {
            members: members_insert(ch.members, u.nick, ChanUser { user_id: u.id, chan_flags: flags }),
            ..ch
        };
        let (ch2, lines, ok) = spec_send(c, ch1, u, "JOIN"@, ch.name, Seq::empty());
        let notice = if ok {
            Ok::<ReplyView, ErrorView>(ReplyView::NoReply)
        } else {
            Err::<ReplyView, ErrorView>(ErrorView::CannotSendToChan(ch.name))
        };
        (ch2, lines, join_replies(ch2, ch.name, notice))
    }
}

/// What `u` leaving channel `ch` with `msg` does: the channel after, the
/// lines to deliver (the part notice, when the channel has members), and
/// whether `u` was a member.
pub open spec fn spec_rm_user(c: CoreView, ch: ChannelView, u: UserView, msg: Seq<char>) -> (
    ChannelView,
    Seq<(u64, Seq<char>)>,
    bool,
) {
    let (ch1, lines) = if ch.members.len() > 0 {
        let (a, l, _) = spec_send(c, ch, u, "PART"@, ch.name, msg);
        (a, l)
    } else {
        (ch, Seq::empty())
    };
    if has_member(ch1.members, u.nick) {
        (ChannelView { members: members_remove(ch1.members, u.nick), ..ch1 }, lines, true)
    } else {
        (ch1, lines, false)
    }
}

impl Channel {
    /// Adds `new_user` with `flags` (see `spec_add_user`).
    pub fn add_user(&mut self, core: &Core, new_user: &User, flags: ChanFlags) -> (res: (
        Vec<(u64, String)>,
        Vec<Result<Reply, Error>>,
    ))
        ensures
            (final(self)@, line_views(res.0@), reply_results(res.1@)) == spec_add_user(
                core@,
                old(self)@,
                new_user@,
                flags,
            ),
    {
        let chan = self.get_name();
        let nick = new_user.get_nick();
        if self.is_joined(nick.as_str()) {
            let lines: Vec<(u64, String)> = Vec::new();
            let replies: Vec<Result<Reply, Error>> = Vec::new();
            assert(line_views(lines@) =~= Seq::<(u64, Seq<char>)>::empty());
            assert(reply_results(replies@) =~= Seq::<Result<ReplyView, ErrorView>>::empty());
            return (lines, replies);
        }
        self.insert_member(nick, ChanUser::new(new_user, flags));
        let (lines, notice) = self.notify_join(core, new_user, chan.as_str());
        let mut replies: Vec<Result<Reply, Error>> = Vec::new();
        replies.push(notice);
        let ghost after_notice = reply_results(replies@);
        match self.get_topic() {
            Some(topic) => {
                let ChanTopic { text, usermask, timestamp } = topic;
                replies.push(Ok(Reply::Topic(chan.clone(), text)));
                replies.push(Ok(Reply::TopicSetBy(chan.clone(), usermask, timestamp)));
            },
            None => {},
        }
        let names = self.get_nick_list();
        replies.push(Ok(Reply::NameReply(chan.clone(), names)));
        replies.push(Ok(Reply::EndofNames(chan)));
        assert(reply_results(replies@) =~= join_replies(self@, old(self)@.name, after_notice[0]));
        (lines, replies)
    }

    /// Takes `user` off the channel, telling the members with `msg` (see
    /// `spec_rm_user`); a channel left empty has its name unbound. A user
    /// who was not on it gets `UnlinkFailed(<nick>, <channel>)`.
    pub fn rm_user(&mut self, core: &mut Core, user: &User, msg: &str) -> (res: (
        Vec<(u64, String)>,
        Result<(), ChanError>,
    ))
        ensures
            ({
                let (ch, lines, removed) = spec_rm_user(old(core)@, old(self)@, user@, msg@);
                &&& final(self)@ == ch
                &&& line_views(res.0@) == lines
                &&& if removed {
                    res.1 is Ok && final(core)@ == (if ch.members.len() == 0 {
                        with_names(old(core)@, old(core)@.names.remove(old(self)@.name))
                    } else {
                        old(core)@
                    })
                } else {
                    (res.1 matches Err(ChanError::UnlinkFailed(n, c)) && n@ == user@.nick && c@
                        == old(self)@.name) && final(core)@ == old(core)@
                }
            }),
    {
        let chan = self.get_name();
        let mut lines: Vec<(u64, String)> = Vec::new();
        assert(line_views(lines@) =~= Seq::<(u64, Seq<char>)>::empty());
        if !self.is_empty() {
            let (l, _notice) = self.notify_part(&*core, user, chan.as_str(), msg);
            lines = l;
        }
        let key = user.get_nick();
        match self.rm_key(key.as_str()) {
            Some(_) => {
                if self.is_empty() {
                    let _unbound = core.remove_name(chan.as_str());
                }
                (lines, Ok(()))
            },
            None => (lines, Err(ChanError::UnlinkFailed(key, chan))),
        }
    }
}


// ---------------------------------------------------------------------------
// laws of membership

/// The insertion position lies within the members.
proof fn lemma_insert_pos_bounds(m: Members, k: Seq<char>)
    ensures
        0 <= insert_pos(m, k) <= m.len(),
    decreases m.len(),
{
    if m.len() > 0 && !str_lt(m.last().0, k) {
        lemma_insert_pos_bounds(m.drop_last(), k);
    }
}

/// After putting `k` among the members, the nicks are the old ones and `k`.
pub proof fn lemma_members_insert_has(m: Members, k: Seq<char>, v: ChanUser, x: Seq<char>)
    ensures
        has_member(members_insert(m, k, v), x) <==> (has_member(m, x) || x == k),
{
    let r = members_insert(m, k, v);
    if has_member(m, k) {
        let p = member_pos(m, k);
        if has_member(r, x) {
            let i = choose|i: int| 0 <= i < r.len() && r[i].0 == x;
            if i != p {
                assert(m[i].0 == x);
            }
        }
        if has_member(m, x) {
            let i = choose|i: int| 0 <= i < m.len() && m[i].0 == x;
            if i == p {
                assert(r[p].0 == k);
            } else {
                assert(r[i].0 == x);
            }
        }
        if x == k {
            assert(r[p].0 == k);
        }
    } else {
        lemma_insert_pos_bounds(m, k);
        let p = insert_pos(m, k);
        if has_member(r, x) {
            let i = choose|i: int| 0 <= i < r.len() && r[i].0 == x;
            if i < p {
                assert(m[i].0 == x);
            } else if i > p {
                assert(m[i - 1].0 == x);
            }
        }
        if has_member(m, x) {
            let i = choose|i: int| 0 <= i < m.len() && m[i].0 == x;
            if i < p {
                assert(r[i].0 == x);
            } else {
                assert(r[i + 1].0 == x);
            }
        }
        if x == k {
            assert(r[p].0 == k);
        }
    }
}

/// After taking `k` out of sorted members, the nicks are the old ones but
/// `k`.
pub proof fn lemma_members_remove_has(m: Members, k: Seq<char>, x: Seq<char>)
    requires
        sorted_members(m),
    ensures
        has_member(members_remove(m, k), x) <==> (has_member(m, x) && x != k),
{
    let r = members_remove(m, k);
    if has_member(m, k) {
        let p = member_pos(m, k);
        if has_member(r, x) {
            let i = choose|i: int| 0 <= i < r.len() && r[i].0 == x;
            let i2 = if i < p { i } else { i + 1 };
            assert(r[i] == m[i2]);
            if x == k {
                lemma_member_pos(m, k, i2);
            }
        }
        if has_member(m, x) && x != k {
            let i = choose|i: int| 0 <= i < m.len() && m[i].0 == x;
            if i < p {
                assert(r[i].0 == x);
            } else {
                assert(i != p);
                assert(r[i - 1].0 == x);
            }
        }
    }
}

/// A member whose user is still there stays among the live members.
proof fn lemma_live_keeps(c: CoreView, m: Members, i: int)
    requires
        0 <= i < m.len(),
        user_alive(c, m[i].1.user_id),
    ensures
        live_members(c, m).contains(m[i]),
    decreases m.len(),
{
    let r = live_members(c, m.drop_last());
    if i == m.len() - 1 {
        assert(live_members(c, m) == r.push(m.last()));
        assert(live_members(c, m)[r.len() as int] == m[i]);
    } else {
        lemma_live_keeps(c, m.drop_last(), i);
        let j = choose|j: int| 0 <= j < r.len() && r[j] == m.drop_last()[i];
        if user_alive(c, m.last().1.user_id) {
            assert(live_members(c, m)[j] == m[i]);
        }
    }
}

/// A user who is still there and joins a channel they are not on becomes a
/// member of it, with the flags given.
pub proof fn law_join_makes_member(c: CoreView, ch: ChannelView, u: UserView, flags: ChanFlags)
    requires
        sorted_members(ch.members),
        !has_member(ch.members, u.nick),
        user_alive(c, u.id),
    ensures
        has_member(spec_add_user(c, ch, u, flags).0.members, u.nick),
{
    let v = ChanUser { user_id: u.id, chan_flags: flags };
    let m1 = members_insert(ch.members, u.nick, v);
    lemma_members_insert_has(ch.members, u.nick, v, u.nick);
    lemma_insert_pos_bounds(ch.members, u.nick);
    let p = insert_pos(ch.members, u.nick);
    assert(m1[p] == (u.nick, v));
    lemma_live_keeps(c, m1, p);
    let live = live_members(c, m1);
    let j = choose|j: int| 0 <= j < live.len() && live[j] == m1[p];
    assert(live[j].0 == u.nick);
}

/// A nick change for a member keyed by the bare nick leaves the members as
/// they were (the entry is put back under its key).
pub proof fn law_update_nick_bare_key_unchanged(m: Members, old_nick: Seq<char>, new_nick: Seq<char>)
    requires
        sorted_members(m),
        has_member(m, old_nick),
    ensures
        nick_moved(m, old_nick, new_nick) == Some(m),
{
    let p = member_pos(m, old_nick);
    let v = m[p].1;
    let r = m.remove(p);
    lemma_remove_sorted(m, p);
    lemma_members_remove_has(m, old_nick, old_nick);
    assert(members_remove(m, old_nick) == r);
    assert forall|j: int| 0 <= j < p implies str_lt(#[trigger] r[j].0, old_nick) by {
        assert(r[j] == m[j]);
        assert(str_lt(m[j].0, m[p].0));
    }
    if p < r.len() {
        assert(r[p] == m[p + 1]);
        assert(str_lt(m[p].0, m[p + 1].0));
        lemma_str_lt_total(m[p].0, m[p + 1].0);
    }
    lemma_insert_pos(r, old_nick, p);
    assert(r.insert(p, (old_nick, v)) =~= m);
}

/// A nick change for a member keyed with a badge (`+<nick>`, or `@<nick>`
/// when there is no `+<nick>`) moves it to the new nick with the same badge:
/// the new key is on the channel and, when the nicks differ, the old one is
/// not.
pub proof fn law_update_nick_keeps_badge(
    m: Members,
    badge_key: Seq<char>,
    old_nick: Seq<char>,
    new_nick: Seq<char>,
)
    requires
        sorted_members(m),
        !has_member(m, old_nick),
        badge_key == seq!['+'] || (badge_key == seq!['@'] && !has_member(m, seq!['+'] + old_nick)),
        has_member(m, badge_key + old_nick),
    ensures
        nick_moved(m, old_nick, new_nick) matches Some(r) && has_member(r, badge_key + new_nick)
            && (old_nick != new_nick ==> !has_member(r, badge_key + old_nick)),
{
    let k = badge_key + old_nick;
    let nk = badge_key + new_nick;
    let v = m[member_pos(m, k)].1;
    let d = members_remove(m, k);
    lemma_members_insert_has(d, nk, v, nk);
    lemma_members_insert_has(d, nk, v, k);
    lemma_members_remove_has(m, k, k);
    if old_nick != new_nick {
        assert(k != nk) by {
            if k == nk {
                assert(k.subrange(1, k.len() as int) =~= old_nick);
                assert(nk.subrange(1, nk.len() as int) =~= new_nick);
            }
        }
    }
}

/// The ids of the members whose users are still there, except `sender`.
pub open spec fn live_others(c: CoreView, m: Members, sender: u64) -> Seq<u64> {
    m.filter(|e: (Seq<char>, ChanUser)| user_alive(c, e.1.user_id) && e.1.user_id != sender).map_values(
        |e: (Seq<char>, ChanUser)| e.1.user_id,
    )
}

/// For any command but `JOIN` and `PART`, the members told are the live
/// members other than the sender, in order.
proof fn lemma_recipients_others(c: CoreView, m: Members, source: UserView, cmd: Seq<char>)
    requires
        cmd != "JOIN"@,
        cmd != "PART"@,
    ensures
        recipients(live_members(c, m), source, cmd) == live_others(c, m, source.id),
    decreases m.len(),
{
    reveal(Seq::filter);
    let p = |e: (Seq<char>, ChanUser)| user_alive(c, e.1.user_id) && e.1.user_id != source.id;
    let f = |e: (Seq<char>, ChanUser)| e.1.user_id;
    if m.len() == 0 {
        assert(m.filter(p) =~= Seq::<(Seq<char>, ChanUser)>::empty());
        assert(live_others(c, m, source.id) =~= Seq::<u64>::empty());
    } else {
        lemma_recipients_others(c, m.drop_last(), source, cmd);
        let l0 = live_members(c, m.drop_last());
        let x = m.last();
        assert(m.filter(p) == if p(x) {
            m.drop_last().filter(p).push(x)
        } else {
            m.drop_last().filter(p)
        });
        if user_alive(c, x.1.user_id) {
            let l = l0.push(x);
            assert(l.drop_last() =~= l0);
            assert(l.last() == x);
            if x.1.user_id != source.id {
                assert(m.drop_last().filter(p).push(x).map_values(f) =~= m.drop_last().filter(p).map_values(
                    f,
                ).push(x.1.user_id));
            }
        }
    }
}

/// A message on a channel for any command but `JOIN` and `PART`, from a
/// member, reaches exactly the members whose users are still there other
/// than the sender, each once and in the channel's order, with the line
/// `:<sender prefix> <cmd> <target>[ :<msg>]`; the sender never gets it.
pub proof fn law_channel_message_reaches_the_others(
    c: CoreView,
    ch: ChannelView,
    source: UserView,
    cmd: Seq<char>,
    target: Seq<char>,
    msg: Seq<char>,
)
    requires
        has_member(ch.members, source.nick),
        cmd != "JOIN"@,
        cmd != "PART"@,
    ensures
        ({
            let (_, lines, ok) = spec_send(c, ch, source, cmd, target, msg);
            let head = ":"@ + spec_assemble_prefix(user_prefix(source)) + " "@ + cmd + " "@ + target;
            let line = if msg.len() == 0 {
                head
            } else {
                head + " :"@ + msg
            };
            &&& ok
            &&& lines == live_others(c, ch.members, source.id).map_values(|id: u64| (id, line))
            &&& forall|k: int| 0 <= k < lines.len() ==> (#[trigger] lines[k]).0 != source.id
        }),
{
    lemma_recipients_others(c, ch.members, source, cmd);
    let p = |e: (Seq<char>, ChanUser)| user_alive(c, e.1.user_id) && e.1.user_id != source.id;
    let fs = ch.members.filter(p);
    let lines = spec_send(c, ch, source, cmd, target, msg).1;
    assert forall|k: int| 0 <= k < lines.len() implies (#[trigger] lines[k]).0 != source.id by {
        ch.members.lemma_filter_pred(p, k);
        assert(p(fs[k]));
    }
}

/// The ids of the members whose users are still there.
pub open spec fn live_ids(c: CoreView, m: Members) -> Seq<u64> {
    m.filter(|e: (Seq<char>, ChanUser)| user_alive(c, e.1.user_id)).map_values(
        |e: (Seq<char>, ChanUser)| e.1.user_id,
    )
}

proof fn lemma_recipients_all(c: CoreView, m: Members, source: UserView, cmd: Seq<char>)
    requires
        cmd == "JOIN"@ || cmd == "PART"@,
    ensures
        recipients(live_members(c, m), source, cmd) == live_ids(c, m),
    decreases m.len(),
{
    reveal(Seq::filter);
    let p = |e: (Seq<char>, ChanUser)| user_alive(c, e.1.user_id);
    let f = |e: (Seq<char>, ChanUser)| e.1.user_id;
    if m.len() == 0 {
        assert(m.filter(p) =~= Seq::<(Seq<char>, ChanUser)>::empty());
        assert(live_ids(c, m) =~= Seq::<u64>::empty());
    } else {
        lemma_recipients_all(c, m.drop_last(), source, cmd);
        let l0 = live_members(c, m.drop_last());
        let x = m.last();
        if user_alive(c, x.1.user_id) {
            let l = l0.push(x);
            assert(l.drop_last() =~= l0);
            assert(l.last() == x);
            assert(m.drop_last().filter(p).push(x).map_values(f) =~= m.drop_last().filter(p).map_values(
                f,
            ).push(x.1.user_id));
        }
    }
}

/// A `JOIN` or `PART` from a member is told to every member whose user is
/// still there, the sender included, in the channel's order.
pub proof fn law_join_part_reach_everyone(
    c: CoreView,
    ch: ChannelView,
    source: UserView,
    cmd: Seq<char>,
    target: Seq<char>,
    msg: Seq<char>,
)
    requires
        has_member(ch.members, source.nick),
        cmd == "JOIN"@ || cmd == "PART"@,
    ensures
        ({
            let (_, lines, ok) = spec_send(c, ch, source, cmd, target, msg);
            &&& ok
            &&& lines.map_values(|l: (u64, Seq<char>)| l.0) == live_ids(c, ch.members)
        }),
{
    lemma_recipients_all(c, ch.members, source, cmd);
    let lines = spec_send(c, ch, source, cmd, target, msg).1;
    assert(lines.map_values(|l: (u64, Seq<char>)| l.0) =~= live_ids(c, ch.members));
}

} // verus!
