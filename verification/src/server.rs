//! The server's state and its decisions: the registration handshake
//! (`NICK` and `USER`, in either order), nick changes, and `PRIVMSG` /
//! `NOTICE` between registered users.
//!
//! Each handler takes the state and a command and gives the next state,
//! the replies for the sender and the messages to deliver to other users;
//! the caller does the sending.
use crate::irc::command::{ascii_upper, to_ascii_uppercase};
use crate::irc::err_defs::{
    ERR_ALREADYREGISTRED, ERR_ERRONEOUSNICKNAME, ERR_NEEDMOREPARAMS, ERR_NICKNAMEINUSE,
    ERR_NOSUCHNICK, ERR_NOTREGISTERED, ERR_UNKNOWNCOMMAND,
};
use crate::irc::error::{Error, ErrorView};
use crate::irc::prefix::{assemble_prefix, opt_view, spec_assemble_prefix, Prefix, PrefixView};
use crate::irc::reply::{code_string, join, pad3, push_joined, string_views};
use crate::irc::rfc_defs::{spec_valid_nick, valid_nick};
use crate::irc::rpl_defs::{RPL_CREATED, RPL_MYINFO, RPL_WELCOME, RPL_YOURHOST};
use crate::irc::tags::{assemble_tags, spec_assemble_tags, TagList, Tags};
use crate::clock::{current_date, spec_date_at};
use crate::names::{NameTable, NamedEntity};
use crate::parser::{parse_message, parse_message_defined, ParsedMsg};
use crate::text::{lemma_split_absent, owned, split, split_char, views};
use std::collections::HashMap;
use vstd::prelude::*;
use vstd::string::*;

verus! {

broadcast use vstd::std_specs::hash::group_hash_axioms;

/// The user modes the server offers.
pub const USER_MODES: &'static str = "";

/// The channel modes the server offers.
pub const CHAN_MODES: &'static str = "+o";

// ---------------------------------------------------------------------------
// users and connections

/// Flags of a registered user.
#[derive(Debug, Clone, Copy, PartialEq, Eq, Structural)]
pub struct UserFlags {
    pub registered: bool,
}

/// A connection that has sent `NICK` or `USER` but not both.
#[derive(Debug)]
pub struct ProtoUser {
    nick: Option<String>,
    username: Option<String>,
    real_name: Option<String>,
}

/// A registered user.
#[derive(Debug)]
pub struct User {
    id: u64,
    nick: String,
    username: String,
    real_name: String,
    host: String,
    server: String,
    flags: UserFlags,
}

/// Where a connection stands in the handshake.
#[derive(Debug)]
pub enum ClientType {
    Dead,
    Unregistered,
    User(User),
    ProtoUser(ProtoUser),
}

/// A connection: its id, the host it comes from and its state.
#[derive(Debug)]
pub struct Client {
    id: u64,
    host: String,
    client_type: ClientType,
}

/// The two kinds of text message.
#[derive(Debug, Clone, Copy, PartialEq, Eq, Structural)]
pub enum MsgType {
    PrivMsg,
    Notice,
}

/// A protocol message: tags, source, command and parameters.
pub struct Message {
    pub tags: Option<Tags>,
    pub prefix: Option<Prefix>,
    pub command: String,
    pub parameters: Vec<String>,
}

// ---------------------------------------------------------------------------
// the values, as mathematics

pub struct ProtoUserView {
    pub nick: Option<Seq<char>>,
    pub username: Option<Seq<char>>,
    pub real_name: Option<Seq<char>>,
}

pub struct UserView {
    pub id: u64,
    pub nick: Seq<char>,
    pub username: Seq<char>,
    pub real_name: Seq<char>,
    pub host: Seq<char>,
    pub server: Seq<char>,
    pub registered: bool,
}

pub enum ClientTypeView {
    Dead,
    Unregistered,
    User(UserView),
    ProtoUser(ProtoUserView),
}

pub struct ClientView {
    pub id: u64,
    pub host: Seq<char>,
    pub client_type: ClientTypeView,
}

pub struct MessageView {
    pub tags: Option<TagList>,
    pub prefix: Option<PrefixView>,
    pub command: Seq<char>,
    pub params: Seq<Seq<char>>,
}

impl View for ProtoUser {
    type V = ProtoUserView;

    closed spec fn view(&self) -> ProtoUserView {
        ProtoUserView {
            nick: opt_view(self.nick),
            username: opt_view(self.username),
            real_name: opt_view(self.real_name),
        }
    }
}

impl View for User {
    type V = UserView;

    closed spec fn view(&self) -> UserView {
        UserView {
            id: self.id,
            nick: self.nick@,
            username: self.username@,
            real_name: self.real_name@,
            host: self.host@,
            server: self.server@,
            registered: self.flags.registered,
        }
    }
}

impl View for ClientType {
    type V = ClientTypeView;

    open spec fn view(&self) -> ClientTypeView {
        match self {
            ClientType::Dead => ClientTypeView::Dead,
            ClientType::Unregistered => ClientTypeView::Unregistered,
            ClientType::User(u) => ClientTypeView::User(u@),
            ClientType::ProtoUser(p) => ClientTypeView::ProtoUser(p@),
        }
    }
}

impl View for Client {
    type V = ClientView;

    closed spec fn view(&self) -> ClientView {
        ClientView { id: self.id, host: self.host@, client_type: self.client_type@ }
    }
}

impl View for Message {
    type V = MessageView;

    open spec fn view(&self) -> MessageView {
        MessageView {
            tags: match self.tags {
                Some(t) => Some(t@),
                None => None,
            },
            prefix: match self.prefix {
                Some(p) => Some(p@),
                None => None,
            },
            command: self.command@,
            params: self.parameters@.map_values(|s: String| s@),
        }
    }
}

/// The prefix by which a user's messages are known: `nick!user@host`.
pub open spec fn user_prefix(u: UserView) -> PrefixView {
    PrefixView { nick: Some(u.nick), user: Some(u.username), host: Some(u.host) }
}

impl User {
    /// A registered user.
    pub fn new(
        id: u64,
        nick: String,
        username: String,
        real_name: String,
        host: String,
        server: String,
    ) -> (res: User)
        ensures
            res@ == (UserView {
                id,
                nick: nick@,
                username: username@,
                real_name: real_name@,
                host: host@,
                server: server@,
                registered: true,
            }),
    {
        User { id, nick, username, real_name, host, server, flags: UserFlags { registered: true } }
    }

    pub fn get_id(&self) -> (res: u64)
        ensures
            res == self@.id,
    {
        self.id
    }

    pub fn get_nick(&self) -> (res: String)
        ensures
            res@ == self@.nick,
    {
        self.nick.clone()
    }

    pub fn get_username(&self) -> (res: String)
        ensures
            res@ == self@.username,
    {
        self.username.clone()
    }

    pub fn get_realname(&self) -> (res: String)
        ensures
            res@ == self@.real_name,
    {
        self.real_name.clone()
    }

    pub fn get_host_string(&self) -> (res: String)
        ensures
            res@ == self@.host,
    {
        self.host.clone()
    }

    pub fn get_server(&self) -> (res: String)
        ensures
            res@ == self@.server,
    {
        self.server.clone()
    }

    /// The user's prefix, `nick!user@host`.
    pub fn get_prefix(&self) -> (res: Prefix)
        ensures
            res@ == user_prefix(self@),
    {
        Prefix {
            nick: Some(self.nick.clone()),
            user: Some(self.username.clone()),
            host: Some(self.host.clone()),
        }
    }
}

impl Client {
    /// A new connection that has not started the handshake.
    pub fn new(id: u64, host: String) -> (res: Client)
        ensures
            res@ == (ClientView { id, host: host@, client_type: ClientTypeView::Unregistered }),
    {
        Client { id, host, client_type: ClientType::Unregistered }
    }

    pub fn get_id(&self) -> (res: u64)
        ensures
            res == self@.id,
    {
        self.id
    }

    pub fn get_host_string(&self) -> (res: String)
        ensures
            res@ == self@.host,
    {
        self.host.clone()
    }

    /// Whether the connection has completed the handshake.
    pub fn is_registered(&self) -> (res: bool)
        ensures
            res == (self@.client_type is User),
    {
        match &self.client_type {
            ClientType::User(_) => true,
            _ => false,
        }
    }
}


// ---------------------------------------------------------------------------
// the server state

/// The server's state as mathematics.
pub struct CoreView {
    pub names: Map<Seq<char>, NamedEntity>,
    pub clients: Map<u64, ClientView>,
    pub id_counter: u64,
    pub hostname: Seq<char>,
    pub version: Seq<char>,
    pub date: Seq<char>,
    pub user_modes: Seq<char>,
    pub chan_modes: Seq<char>,
}

/// The server's state: the namespace, the connections by id, the last id
/// handed out, and what the server tells about itself.
pub struct Core {
    namespace: NameTable,
    clients: HashMap<u64, Client>,
    id_counter: u64,
    hostname: String,
    version: String,
    date: String,
    user_modes: String,
    chan_modes: String,
}

/// The connections of a map, as mathematics.
pub open spec fn client_views(m: Map<u64, Client>) -> Map<u64, ClientView> {
    Map::new(|k: u64| m.contains_key(k), |k: u64| m[k]@)
}

impl View for Core {
    type V = CoreView;

    closed spec fn view(&self) -> CoreView {
        CoreView {
            names: self.namespace@,
            clients: client_views(self.clients@),
            id_counter: self.id_counter,
            hostname: self.hostname@,
            version: self.version@,
            date: self.date@,
            user_modes: self.user_modes@,
            chan_modes: self.chan_modes@,
        }
    }
}

/// The texts of some messages.
pub open spec fn message_views(v: Seq<Message>) -> Seq<MessageView> {
    v.map_values(|m: Message| m@)
}

/// The state with another namespace.
pub open spec fn with_names(c: CoreView, names: Map<Seq<char>, NamedEntity>) -> CoreView {
    CoreView {
        names,
        clients: c.clients,
        id_counter: c.id_counter,
        hostname: c.hostname,
        version: c.version,
        date: c.date,
        user_modes: c.user_modes,
        chan_modes: c.chan_modes,
    }
}

/// The state with other connections.
pub open spec fn with_clients(c: CoreView, clients: Map<u64, ClientView>) -> CoreView {
    CoreView {
        names: c.names,
        clients,
        id_counter: c.id_counter,
        hostname: c.hostname,
        version: c.version,
        date: c.date,
        user_modes: c.user_modes,
        chan_modes: c.chan_modes,
    }
}

/// Where connection `id` stands; a connection that is gone counts as dead.
pub open spec fn client_type_of(c: CoreView, id: u64) -> ClientTypeView {
    if c.clients.contains_key(id) {
        c.clients[id].client_type
    } else {
        ClientTypeView::Dead
    }
}

/// The state with connection `id` moved to `t`.
pub open spec fn with_type(c: CoreView, id: u64, t: ClientTypeView) -> CoreView {
    with_clients(
        c,
        c.clients.insert(id, ClientView { id: c.clients[id].id, host: c.clients[id].host, client_type: t }),
    )
}

/// A numeric reply from the server: its name as prefix, the code written
/// with three digits as command.
pub open spec fn reply_msg(c: CoreView, code: u16, params: Seq<Seq<char>>) -> MessageView {
    MessageView {
        tags: None,
        prefix: Some(PrefixView { nick: None, user: None, host: Some(c.hostname) }),
        command: pad3(code as nat),
        params,
    }
}

/// The replies that greet a newly registered user.
pub open spec fn welcome(
    c: CoreView,
    nick: Seq<char>,
    username: Seq<char>,
    host: Seq<char>,
) -> Seq<MessageView> {
    seq![
        reply_msg(c, RPL_WELCOME, seq![nick, username, host]),
        reply_msg(c, RPL_YOURHOST, seq![c.hostname, c.version]),
        reply_msg(c, RPL_CREATED, seq![c.date]),
        reply_msg(c, RPL_MYINFO, seq![c.hostname, c.version, c.user_modes, c.chan_modes]),
    ]
}

/// What holds of each connection: it is filed under its own id; a half
/// registered one has a nick or both a username and a real name; a
/// registered user carries the connection's id and its nick is bound to
/// it.
pub open spec fn client_ok(c: CoreView, id: u64) -> bool {
    &&& c.clients[id].id == id
    &&& match c.clients[id].client_type {
        ClientTypeView::ProtoUser(p) => p.nick is Some || (p.username is Some
            && p.real_name is Some),
        ClientTypeView::User(u) => u.id == id && u.registered && c.names.contains_key(u.nick)
            && c.names[u.nick] == NamedEntity::User(id),
        _ => true,
    }
}

/// The invariant of the server state.
pub open spec fn core_wf(c: CoreView) -> bool {
    forall|id: u64| #[trigger] c.clients.contains_key(id) ==> client_ok(c, id)
}

impl Core {
    /// A server named `hostname` running `version`, with no names and no
    /// connections, started now (its date is the RFC 2822 text of the
    /// current time, or empty when the clock cannot be read).
    pub fn new(hostname: String, version: String) -> (res: Core)
        ensures
            res@.names == Map::<Seq<char>, NamedEntity>::empty(),
            res@.clients == Map::<u64, ClientView>::empty(),
            res@.id_counter == 0,
            res@.hostname == hostname@,
            res@.version == version@,
            res@.user_modes == USER_MODES@,
            res@.chan_modes == CHAN_MODES@,
            exists|secs: Option<i64>|
                (secs matches Some(s) ==> s >= 0) && res@.date == #[trigger] spec_date_at(secs),
            core_wf(res@),
    {
        let core = Core {
            namespace: NameTable::new(),
            clients: HashMap::new(),
            id_counter: 0,
            hostname,
            version,
            date: current_date(),
            user_modes: owned(USER_MODES),
            chan_modes: owned(CHAN_MODES),
        };
        assert(core@.clients =~= Map::<u64, ClientView>::empty());
        core
    }

    /// The last id handed out.
    pub fn last_id(&self) -> (res: u64)
        ensures
            res == self@.id_counter,
    {
        self.id_counter
    }

    /// Hands out the next connection id.
    pub fn assign_id(&mut self) -> (res: u64)
        requires
            old(self)@.id_counter < u64::MAX,
        ensures
            res == old(self)@.id_counter + 1,
            final(self)@ == (CoreView { id_counter: res, ..old(self)@ }),
    {
        self.id_counter = self.id_counter + 1;
        self.id_counter
    }

    /// Files a connection under its id.
    pub fn insert_client(&mut self, client: Client)
        requires
            core_wf(old(self)@),
            client@.client_type is Unregistered,
        ensures
            final(self)@ == with_clients(old(self)@, old(self)@.clients.insert(client@.id, client@)),
            core_wf(final(self)@),
    {
        let ghost cv = client@;
        let id = client.id;
        self.clients.insert(id, client);
        proof {
            assert(self@.clients =~= old(self)@.clients.insert(id, cv));
            assert forall|k: u64| #[trigger] self@.clients.contains_key(k) implies client_ok(self@, k) by {
                if k != id {
                    assert(client_ok(old(self)@, k));
                }
            }
        }
    }

    /// Takes the connection filed under `id` out.
    pub fn remove_client(&mut self, id: u64) -> (res: Option<Client>)
        requires
            core_wf(old(self)@),
        ensures
            final(self)@ == with_clients(old(self)@, old(self)@.clients.remove(id)),
            match res {
                Some(c) => old(self)@.clients.contains_key(id) && c@ == old(self)@.clients[id],
                None => !old(self)@.clients.contains_key(id),
            },
            core_wf(final(self)@),
    {
        let res = self.clients.remove(&id);
        proof {
            assert(self@.clients =~= old(self)@.clients.remove(id));
            assert forall|k: u64| #[trigger] self@.clients.contains_key(k) implies client_ok(self@, k) by {
                assert(client_ok(old(self)@, k));
            }
        }
        res
    }

    /// The connection filed under `id`.
    pub fn get_client(&self, id: u64) -> (res: Option<&Client>)
        ensures
            match res {
                Some(c) => self@.clients.contains_key(id) && c@ == self@.clients[id],
                None => !self@.clients.contains_key(id),
            },
    {
        self.clients.get(&id)
    }

    /// Binds `name` to `item` unless it is bound already.
    pub fn insert_name(&mut self, name: &str, item: NamedEntity) -> (res: Result<(), Error>)
        requires
            core_wf(old(self)@),
        ensures
            match res {
                Ok(()) => !old(self)@.names.contains_key(name@) && final(self)@ == with_names(
                    old(self)@,
                    old(self)@.names.insert(name@, item),
                ),
                Err(e) => old(self)@.names.contains_key(name@) && e@ == ErrorView::HashCollision
                    && final(self)@ == old(self)@,
            },
            core_wf(final(self)@),
    {
        if !self.namespace.contains_key(name) {
            self.namespace.insert_new(owned(name), item);
            proof {
                assert forall|k: u64| #[trigger] self@.clients.contains_key(k) implies client_ok(self@, k) by {
                    assert(client_ok(old(self)@, k));
                }
            }
            Ok(())
        } else {
            Err(Error::HashCollision)
        }
    }

    /// Unbinds `name`, giving back what it was bound to.
    pub fn remove_name(&mut self, name: &str) -> (res: Option<NamedEntity>)
        ensures
            final(self)@ == with_names(old(self)@, old(self)@.names.remove(name@)),
            match res {
                Some(v) => old(self)@.names.contains_key(name@) && old(self)@.names[name@] == v,
                None => !old(self)@.names.contains_key(name@),
            },
    {
        self.namespace.remove(name)
    }

    /// What `name` is bound to.
    pub fn get_name(&self, name: &str) -> (res: Option<NamedEntity>)
        ensures
            match res {
                Some(v) => self@.names.contains_key(name@) && self@.names[name@] == v,
                None => !self@.names.contains_key(name@),
            },
    {
        self.namespace.get(name)
    }

    /// The id of the user whose nick is `nick`.
    pub fn get_nick(&self, nick: &str) -> (res: Option<u64>)
        ensures
            res == (if self@.names.contains_key(nick@) && self@.names[nick@] is User {
                Some(self@.names[nick@]->User_0)
            } else {
                None::<u64>
            }),
    {
        match self.namespace.get(nick) {
            Some(NamedEntity::User(id)) => Some(id),
            _ => None,
        }
    }

    /// The server's name.
    pub fn get_host(&self) -> (res: String)
        ensures
            res@ == self@.hostname,
    {
        self.hostname.clone()
    }

    pub fn get_version(&self) -> (res: String)
        ensures
            res@ == self@.version,
    {
        self.version.clone()
    }

    /// When the server was started.
    pub fn get_date(&self) -> (res: String)
        ensures
            res@ == self@.date,
    {
        self.date.clone()
    }

    pub fn get_umodes(&self) -> (res: String)
        ensures
            res@ == self@.user_modes,
    {
        self.user_modes.clone()
    }

    pub fn get_chanmodes(&self) -> (res: String)
        ensures
            res@ == self@.chan_modes,
    {
        self.chan_modes.clone()
    }

    /// A numeric reply from the server with the given parameters.
    pub fn gen_reply(&self, code: u16, params: Vec<String>) -> (res: Message)
        ensures
            res@ == reply_msg(self@, code, string_views(params@)),
    {
        let prefix = Prefix { nick: None, user: None, host: Some(self.hostname.clone()) };
        let m = Message { tags: None, prefix: Some(prefix), command: code_string(code), parameters: params };
        assert(m@.params =~= string_views(params@));
        m
    }
}


// ---------------------------------------------------------------------------
// registration and nick changes

/// The user that registration makes of connection `id`.
pub open spec fn new_user(
    c: CoreView,
    id: u64,
    nick: Seq<char>,
    username: Seq<char>,
    real_name: Seq<char>,
) -> UserView {
    UserView {
        id: c.clients[id].id,
        nick,
        username,
        real_name,
        host: c.clients[id].host,
        server: c.hostname,
        registered: true,
    }
}

/// Registration of connection `id` under `nick`: the nick bound to the new
/// user, and the user; `None` when the nick is taken or the connection is
/// gone.
pub open spec fn spec_register(
    c: CoreView,
    id: u64,
    nick: Seq<char>,
    username: Seq<char>,
    real_name: Seq<char>,
) -> Option<(CoreView, UserView)> {
    if !c.clients.contains_key(id) || c.names.contains_key(nick) {
        None
    } else {
        Some(
            (
                with_names(c, c.names.insert(nick, NamedEntity::User(c.clients[id].id))),
                new_user(c, id, nick, username, real_name),
            ),
        )
    }
}

/// A nick change in the namespace: `None` when the new nick is taken;
/// otherwise the binding of the old nick moved to the new one (when the old
/// nick is bound at all).
pub open spec fn spec_nick_change(
    names: Map<Seq<char>, NamedEntity>,
    old_nick: Seq<char>,
    new_nick: Seq<char>,
) -> Option<Map<Seq<char>, NamedEntity>> {
    if names.contains_key(new_nick) {
        None
    } else if names.contains_key(old_nick) {
        Some(names.remove(old_nick).insert(new_nick, names[old_nick]))
    } else {
        Some(names)
    }
}

/// The user after a nick change that went through: renamed when its old
/// nick was bound.
pub open spec fn renamed(names: Map<Seq<char>, NamedEntity>, u: UserView, new_nick: Seq<char>) -> UserView {
    UserView {
        nick: if names.contains_key(u.nick) {
            new_nick
        } else {
            u.nick
        },
        ..u
    }
}

impl User {
    fn set_nick(&mut self, nick: String)
        ensures
            final(self)@ == (UserView { nick: nick@, ..old(self)@ }),
    {
        self.nick = nick;
    }
}

impl Core {
    /// Registers connection `id` as a user under `nick`; `None` when the
    /// nick is taken or there is no such connection.
    pub fn register(&mut self, id: u64, nick: String, username: String, real_name: String) -> (res:
        Option<User>)
        requires
            core_wf(old(self)@),
        ensures
            match res {
                Some(u) => spec_register(old(self)@, id, nick@, username@, real_name@) == Some(
                    (final(self)@, u@),
                ),
                None => spec_register(old(self)@, id, nick@, username@, real_name@) is None
                    && final(self)@ == old(self)@,
            },
            core_wf(final(self)@),
    {
        let (cid, host) = match self.clients.get(&id) {
            Some(c) => (c.id, c.host.clone()),
            None => {
                return None;
            },
        };
        if self.namespace.contains_key(nick.as_str()) {
            return None;
        }
        let server = self.hostname.clone();
        self.namespace.insert_new(nick.clone(), NamedEntity::User(cid));
        proof {
            assert forall|k: u64| #[trigger] self@.clients.contains_key(k) implies client_ok(self@, k) by {
                assert(client_ok(old(self)@, k));
            }
        }
        Some(User::new(cid, nick, username, real_name, host, server))
    }

    /// Moves `user`'s nick binding to `new_nick`, unless that is taken.
    pub fn try_nick_change(&mut self, user: &mut User, new_nick: &str) -> (res: Result<(), Error>)
        ensures
            match spec_nick_change(old(self)@.names, old(user)@.nick, new_nick@) {
                None => (res matches Err(e) && e@ == ErrorView::HashCollision) && final(self)@
                    == old(self)@ && final(user)@ == old(user)@,
                Some(n) => res is Ok && final(self)@ == with_names(old(self)@, n) && final(user)@
                    == renamed(old(self)@.names, old(user)@, new_nick@),
            },
    {
        if self.namespace.contains_key(new_nick) {
            return Err(Error::HashCollision);
        }
        let old_nick = user.get_nick();
        if let Some(val) = self.namespace.remove(old_nick.as_str()) {
            self.namespace.insert_new(owned(new_nick), val);
            user.set_nick(owned(new_nick));
        } else {
            assert(old(self)@.names.remove(old_nick@) =~= old(self)@.names);
        }
        Ok(())
    }

    /// Moves connection `id` to `t`.
    fn put_type(&mut self, id: u64, t: ClientType)
        requires
            old(self)@.clients.contains_key(id),
        ensures
            final(self)@ == with_type(old(self)@, id, t@),
    {
        let ghost tv = t@;
        match self.clients.remove(&id) {
            Some(c) => {
                let Client { id: cid, host, client_type: _ } = c;
                self.clients.insert(id, Client { id: cid, host, client_type: t });
                assert(self@.clients =~= old(self)@.clients.insert(
                    id,
                    ClientView { id: old(self)@.clients[id].id, host: old(self)@.clients[id].host, client_type: tv },
                ));
            },
            None => {
                assert(false);
            },
        }
    }
}


// ---------------------------------------------------------------------------
// NICK and USER

/// What `NICK <nick>` from connection `id` does: the next state and the
/// replies. A missing, malformed or taken nick is refused with a reply. A
/// connection that has not begun the handshake keeps the nick for later; a
/// registered user is renamed; one that sent `USER` before is registered
/// and welcomed; one that sent `NICK` before takes the new nick instead.
pub open spec fn spec_nick(c: CoreView, id: u64, params: Seq<Seq<char>>) -> (
    CoreView,
    Seq<MessageView>,
) {
    if params.len() == 0 {
        (c, seq![reply_msg(c, ERR_NEEDMOREPARAMS, seq!["NICK"@])])
    } else if !spec_valid_nick(params[0]) {
        (c, seq![reply_msg(c, ERR_ERRONEOUSNICKNAME, seq![params[0]])])
    } else if c.names.contains_key(params[0]) {
        (c, seq![reply_msg(c, ERR_NICKNAMEINUSE, seq![params[0]])])
    } else {
        let nick = params[0];
        match client_type_of(c, id) {
            ClientTypeView::Dead => (c, Seq::empty()),
            ClientTypeView::Unregistered => (
                with_type(
                    c,
                    id,
                    ClientTypeView::ProtoUser(
                        ProtoUserView { nick: Some(nick), username: None, real_name: None },
                    ),
                ),
                Seq::empty(),
            ),
            ClientTypeView::User(u) => match spec_nick_change(c.names, u.nick, nick) {
                None => (c, seq![reply_msg(c, ERR_NICKNAMEINUSE, seq![nick])]),
                Some(n) => (
                    with_type(with_names(c, n), id, ClientTypeView::User(renamed(c.names, u, nick))),
                    Seq::empty(),
                ),
            },
            ClientTypeView::ProtoUser(p) => if p.nick is Some {
                (
                    with_type(
                        c,
                        id,
                        ClientTypeView::ProtoUser(ProtoUserView { nick: Some(nick), ..p }),
                    ),
                    Seq::empty(),
                )
            } else {
                match spec_register(c, id, nick, p.username->0, p.real_name->0) {
                    Some((c2, u)) => (
                        with_type(c2, id, ClientTypeView::User(u)),
                        welcome(c, nick, p.username->0, c.clients[id].host),
                    ),
                    None => (c, Seq::empty()),
                }
            },
        }
    }
}

/// What `USER <username> <mode> <unused> <realname>` from connection `id`
/// does: the next state and the replies. A wrong number of parameters and a
/// second registration are refused with a reply. A connection that sent
/// `NICK` before is registered and welcomed (or told that its nick was
/// taken meanwhile); otherwise the names are kept for later.
pub open spec fn spec_user(c: CoreView, id: u64, params: Seq<Seq<char>>) -> (
    CoreView,
    Seq<MessageView>,
) {
    if params.len() != 4 {
        (c, seq![reply_msg(c, ERR_NEEDMOREPARAMS, seq!["USER"@])])
    } else {
        let username = params[0];
        let real_name = params[3];
        let waiting = ClientTypeView::ProtoUser(
            ProtoUserView { nick: None, username: Some(username), real_name: Some(real_name) },
        );
        match client_type_of(c, id) {
            ClientTypeView::Dead => (c, Seq::empty()),
            ClientTypeView::Unregistered => (with_type(c, id, waiting), Seq::empty()),
            ClientTypeView::User(_) => (c, seq![reply_msg(c, ERR_ALREADYREGISTRED, Seq::empty())]),
            ClientTypeView::ProtoUser(p) => match p.nick {
                Some(nick) => match spec_register(c, id, nick, username, real_name) {
                    Some((c2, u)) => (
                        with_type(c2, id, ClientTypeView::User(u)),
                        welcome(c, nick, username, c.clients[id].host),
                    ),
                    None => (c, seq![reply_msg(c, ERR_NICKNAMEINUSE, seq![nick])]),
                },
                None => (with_type(c, id, waiting), Seq::empty()),
            },
        }
    }
}

impl ProtoUser {
    fn copy(&self) -> (res: ProtoUser)
        ensures
            res@ == self@,
    {
        ProtoUser {
            nick: match &self.nick {
                Some(n) => Some(n.clone()),
                None => None,
            },
            username: match &self.username {
                Some(n) => Some(n.clone()),
                None => None,
            },
            real_name: match &self.real_name {
                Some(n) => Some(n.clone()),
                None => None,
            },
        }
    }
}

impl User {
    /// A copy of the user.
    pub fn clone(&self) -> (res: User)
        ensures
            res@ == self@,
    {
        User {
            id: self.id,
            nick: self.nick.clone(),
            username: self.username.clone(),
            real_name: self.real_name.clone(),
            host: self.host.clone(),
            server: self.server.clone(),
            flags: self.flags,
        }
    }
}

impl Core {
    /// A copy of where connection `id` stands.
    fn client_type_copy(&self, id: u64) -> (res: ClientType)
        ensures
            res@ == client_type_of(self@, id),
    {
        match self.clients.get(&id) {
            None => ClientType::Dead,
            Some(c) => match &c.client_type {
                ClientType::Dead => ClientType::Dead,
                ClientType::Unregistered => ClientType::Unregistered,
                ClientType::User(u) => ClientType::User(u.clone()),
                ClientType::ProtoUser(p) => ClientType::ProtoUser(p.copy()),
            },
        }
    }

    /// The replies that greet a newly registered user.
    fn welcome(&self, nick: String, username: String, host: String) -> (res: Vec<Message>)
        ensures
            message_views(res@) == welcome(self@, nick@, username@, host@),
    {
        let ghost (n, u, h) = (nick@, username@, host@);
        let mut replies: Vec<Message> = Vec::new();
        let p1 = vec![nick, username, host];
        assert(string_views(p1@) =~= seq![n, u, h]);
        replies.push(self.gen_reply(RPL_WELCOME, p1));
        let p2 = vec![self.get_host(), self.get_version()];
        assert(string_views(p2@) =~= seq![self@.hostname, self@.version]);
        replies.push(self.gen_reply(RPL_YOURHOST, p2));
        let p3 = vec![self.get_date()];
        assert(string_views(p3@) =~= seq![self@.date]);
        replies.push(self.gen_reply(RPL_CREATED, p3));
        let p4 = vec![self.get_host(), self.get_version(), self.get_umodes(), self.get_chanmodes()];
        assert(string_views(p4@) =~= seq![self@.hostname, self@.version, self@.user_modes, self@.chan_modes]);
        replies.push(self.gen_reply(RPL_MYINFO, p4));
        assert(message_views(replies@) =~= welcome(self@, n, u, h));
        replies
    }

    /// A reply with one parameter.
    fn reply1(&self, code: u16, param: String) -> (res: Message)
        ensures
            res@ == reply_msg(self@, code, seq![param@]),
    {
        let ghost pv = param@;
        let v = vec![param];
        assert(string_views(v@) =~= seq![pv]);
        self.gen_reply(code, v)
    }

    /// A reply with no parameters.
    fn reply0(&self, code: u16) -> (res: Message)
        ensures
            res@ == reply_msg(self@, code, Seq::empty()),
    {
        let v: Vec<String> = Vec::new();
        assert(string_views(v@) =~= Seq::<Seq<char>>::empty());
        self.gen_reply(code, v)
    }

    /// Registers connection `id` and moves it to the new user, with the
    /// welcome; nothing changes when the nick is taken.
    fn complete(&mut self, id: u64, nick: String, username: String, real_name: String) -> (res:
        Option<Vec<Message>>)
        requires
            core_wf(old(self)@),
            old(self)@.clients.contains_key(id),
        ensures
            match spec_register(old(self)@, id, nick@, username@, real_name@) {
                Some((c2, u)) => res matches Some(r) && final(self)@ == with_type(
                    c2,
                    id,
                    ClientTypeView::User(u),
                ) && message_views(r@) == welcome(
                    old(self)@,
                    nick@,
                    username@,
                    old(self)@.clients[id].host,
                ),
                None => res is None && final(self)@ == old(self)@,
            },
            core_wf(final(self)@),
    {
        let host = match self.clients.get(&id) {
            Some(c) => c.host.clone(),
            None => {
                return None;
            },
        };
        let ghost c0 = self@;
        match self.register(id, nick.clone(), username.clone(), real_name) {
            Some(user) => {
                let replies = self.welcome(nick, username, host);
                let ghost c1 = self@;
                let ghost uv = user@;
                self.put_type(id, ClientType::User(user));
                proof {
                    assert(client_ok(c0, id));
                    assert forall|k: u64| #[trigger] self@.clients.contains_key(k) implies client_ok(
                        self@,
                        k,
                    ) by {
                        if k != id {
                            assert(client_ok(c0, k));
                            assert(c0.clients[k] == self@.clients[k]);
                        }
                    }
                }
                Some(replies)
            },
            None => None,
        }
    }

    /// Handles `NICK` from connection `id` (see `spec_nick`).
    pub fn nick(&mut self, id: u64, params: &Vec<String>) -> (res: Vec<Message>)
        requires
            core_wf(old(self)@),
        ensures
            (final(self)@, message_views(res@)) == spec_nick(old(self)@, id, string_views(params@)),
            core_wf(final(self)@),
    {
        let mut replies: Vec<Message> = Vec::new();
        let ghost c0 = self@;
        if params.len() == 0 {
            replies.push(self.reply1(ERR_NEEDMOREPARAMS, owned("NICK")));
            proof {
                reveal_strlit("NICK");
            }
            assert(message_views(replies@) =~= spec_nick(c0, id, string_views(params@)).1);
            return replies;
        }
        let nick = params[0].clone();
        assert(nick@ == string_views(params@)[0]);
        if !valid_nick(nick.as_str()) {
            replies.push(self.reply1(ERR_ERRONEOUSNICKNAME, nick));
            assert(message_views(replies@) =~= spec_nick(c0, id, string_views(params@)).1);
            return replies;
        }
        if self.namespace.contains_key(nick.as_str()) {
            replies.push(self.reply1(ERR_NICKNAMEINUSE, nick));
            assert(message_views(replies@) =~= spec_nick(c0, id, string_views(params@)).1);
            return replies;
        }
        match self.client_type_copy(id) {
            ClientType::Dead => {},
            ClientType::Unregistered => {
                self.put_type(
                    id,
                    ClientType::ProtoUser(ProtoUser { nick: Some(nick), username: None, real_name: None }),
                );
                proof {
                    assert forall|k: u64| #[trigger] self@.clients.contains_key(k) implies client_ok(
                        self@,
                        k,
                    ) by {
                        if k != id {
                            assert(client_ok(c0, k));
                        } else {
                            assert(client_ok(c0, id));
                        }
                    }
                }
            },
            ClientType::User(mut u) => {
                let ghost uv = u@;
                match self.try_nick_change(&mut u, nick.as_str()) {
                    Err(_) => {
                        replies.push(self.reply1(ERR_NICKNAMEINUSE, nick));
                        assert(message_views(replies@) =~= spec_nick(c0, id, string_views(params@)).1);
                    },
                    Ok(()) => {
                        let ghost c1 = self@;
                        self.put_type(id, ClientType::User(u));
                        proof {
                            assert(client_ok(c0, id));
                            assert forall|k: u64| #[trigger] self@.clients.contains_key(k) implies client_ok(
                                self@,
                                k,
                            ) by {
                                if k != id {
                                    assert(client_ok(c0, k));
                                    let v = c0.clients[k].client_type;
                                    if v is User {
                                        assert(c0.names[v->User_0.nick] == NamedEntity::User(k));
                                        assert(v->User_0.nick != uv.nick);
                                    }
                                }
                            }
                        }
                    },
                }
            },
            ClientType::ProtoUser(p) => {
                proof {
                    assert(client_ok(c0, id));
                }
                if p.nick.is_some() {
                    let ghost pv = p@;
                    self.put_type(
                        id,
                        ClientType::ProtoUser(
                            ProtoUser { nick: Some(nick), username: p.username, real_name: p.real_name },
                        ),
                    );
                    proof {
                        assert forall|k: u64| #[trigger] self@.clients.contains_key(k) implies client_ok(
                            self@,
                            k,
                        ) by {
                            if k != id {
                                assert(client_ok(c0, k));
                            }
                        }
                    }
                } else {
                    let (username, real_name) = match (p.username, p.real_name) {
                        (Some(a), Some(b)) => (a, b),
                        _ => {
                            assert(false);
                            return replies;
                        },
                    };
                    match self.complete(id, nick, username, real_name) {
                        Some(r) => {
                            replies = r;
                        },
                        None => {},
                    }
                }
            },
        }
        replies
    }

    /// Handles `USER` from connection `id` (see `spec_user`).
    pub fn user(&mut self, id: u64, params: &Vec<String>) -> (res: Vec<Message>)
        requires
            core_wf(old(self)@),
        ensures
            (final(self)@, message_views(res@)) == spec_user(old(self)@, id, string_views(params@)),
            core_wf(final(self)@),
    {
        let mut replies: Vec<Message> = Vec::new();
        let ghost c0 = self@;
        if params.len() != 4 {
            replies.push(self.reply1(ERR_NEEDMOREPARAMS, owned("USER")));
            proof {
                reveal_strlit("USER");
            }
            assert(message_views(replies@) =~= spec_user(c0, id, string_views(params@)).1);
            return replies;
        }
        let username = params[0].clone();
        let real_name = params[3].clone();
        assert(username@ == string_views(params@)[0]);
        assert(real_name@ == string_views(params@)[3]);
        match self.client_type_copy(id) {
            ClientType::Dead => {},
            ClientType::Unregistered => {
                self.put_type(
                    id,
                    ClientType::ProtoUser(
                        ProtoUser { nick: None, username: Some(username), real_name: Some(real_name) },
                    ),
                );
                proof {
                    assert forall|k: u64| #[trigger] self@.clients.contains_key(k) implies client_ok(
                        self@,
                        k,
                    ) by {
                        if k != id {
                            assert(client_ok(c0, k));
                        } else {
                            assert(client_ok(c0, id));
                        }
                    }
                }
            },
            ClientType::User(_) => {
                replies.push(self.reply0(ERR_ALREADYREGISTRED));
                assert(message_views(replies@) =~= spec_user(c0, id, string_views(params@)).1);
            },
            ClientType::ProtoUser(p) => {
                proof {
                    assert(client_ok(c0, id));
                }
                match p.nick {
                    Some(nick) => {
                        let n2 = nick.clone();
                        match self.complete(id, nick, username, real_name) {
                            Some(r) => {
                                replies = r;
                            },
                            None => {
                                replies.push(self.reply1(ERR_NICKNAMEINUSE, n2));
                                assert(message_views(replies@) =~= spec_user(c0, id, string_views(params@)).1);
                            },
                        }
                    },
                    None => {
                        self.put_type(
                            id,
                            ClientType::ProtoUser(
                                ProtoUser { nick: None, username: Some(username), real_name: Some(real_name) },
                            ),
                        );
                        proof {
                            assert forall|k: u64| #[trigger] self@.clients.contains_key(k) implies client_ok(
                                self@,
                                k,
                            ) by {
                                if k != id {
                                    assert(client_ok(c0, k));
                                }
                            }
                        }
                    },
                }
            },
        }
        replies
    }
}


// ---------------------------------------------------------------------------
// PRIVMSG and NOTICE

/// Whether the user that an id names is still there: a connection filed
/// under the id holds a registered user.
pub open spec fn user_alive(c: CoreView, uid: u64) -> bool {
    c.clients.contains_key(uid) && c.clients[uid].client_type is User
}

/// The deliveries and replies for a list of targets: `out` for each target
/// bound to a user who is still there, `ERR_NOSUCHNICK` for each name that
/// is not bound, nothing for the others.
pub open spec fn msg_targets(c: CoreView, targets: Seq<Seq<char>>, out: MessageView) -> (
    Seq<(u64, MessageView)>,
    Seq<MessageView>,
)
    decreases targets.len(),
{
    if targets.len() == 0 {
        (Seq::empty(), Seq::empty())
    } else {
        let (d, r) = msg_targets(c, targets.drop_last(), out);
        let t = targets.last();
        if c.names.contains_key(t) {
            match c.names[t] {
                NamedEntity::User(uid) => if user_alive(c, uid) {
                    (d.push((uid, out)), r)
                } else {
                    (d, r)
                },
                NamedEntity::Nick(_) => (d, r),
            }
        } else {
            (d, r.push(reply_msg(c, ERR_NOSUCHNICK, seq![t])))
        }
    }
}

/// The message that a user's `PRIVMSG` or `NOTICE` becomes for its
/// recipients: the sender's prefix, the command, and the text.
pub open spec fn text_message(sender: UserView, notice: bool, text: Seq<char>) -> MessageView {
    MessageView {
        tags: None,
        prefix: Some(user_prefix(sender)),
        command: if notice {
            "NOTICE"@
        } else {
            "PRIVMSG"@
        },
        params: seq![text],
    }
}

/// What `PRIVMSG <targets> <text...>` (or `NOTICE`) from `sender` does: the
/// deliveries, in the order of the comma-separated targets, and the replies.
/// The words of the text are joined with spaces. Too few parameters are
/// refused with a reply to a `PRIVMSG` and silently for a `NOTICE`.
pub open spec fn spec_msg(c: CoreView, sender: UserView, params: Seq<Seq<char>>, notice: bool) -> (
    Seq<(u64, MessageView)>,
    Seq<MessageView>,
) {
    if params.len() < 2 {
        (
            Seq::empty(),
            if notice {
                Seq::empty()
            } else {
                seq![reply_msg(c, ERR_NEEDMOREPARAMS, seq!["PRIVMSG"@])]
            },
        )
    } else {
        msg_targets(
            c,
            split(params[0], ','),
            text_message(sender, notice, join(params.drop_first(), " "@)),
        )
    }
}

/// The recipients and messages of some deliveries.
pub open spec fn delivery_views(v: Seq<(u64, Message)>) -> Seq<(u64, MessageView)> {
    v.map_values(|d: (u64, Message)| (d.0, d.1@))
}

impl Core {
    /// Whether a registered user is filed under `uid`.
    pub(crate) fn user_alive(&self, uid: u64) -> (res: bool)
        ensures
            res == user_alive(self@, uid),
    {
        match self.clients.get(&uid) {
            Some(c) => match &c.client_type {
                ClientType::User(_) => true,
                _ => false,
            },
            None => false,
        }
    }

    /// Handles `PRIVMSG` (or, with `notice`, `NOTICE`) from `send_u` (see
    /// `spec_msg`): gives the deliveries and the replies.
    pub fn msg(&self, send_u: &User, params: &Vec<String>, notice: bool) -> (res: (
        Vec<(u64, Message)>,
        Vec<Message>,
    ))
        ensures
            (delivery_views(res.0@), message_views(res.1@)) == spec_msg(
                self@,
                send_u@,
                string_views(params@),
                notice,
            ),
    {
        let mut deliveries: Vec<(u64, Message)> = Vec::new();
        let mut replies: Vec<Message> = Vec::new();
        if params.len() < 2 {
            if !notice {
                replies.push(self.reply1(ERR_NEEDMOREPARAMS, owned("PRIVMSG")));
                proof {
                    reveal_strlit("PRIVMSG");
                }
                assert(message_views(replies@) =~= seq![reply_msg(self@, ERR_NEEDMOREPARAMS, seq!["PRIVMSG"@])]);
            }
            assert(delivery_views(deliveries@) =~= Seq::<(u64, MessageView)>::empty());
            assert(message_views(replies@) =~= spec_msg(self@, send_u@, string_views(params@), notice).1);
            return (deliveries, replies);
        }
        let mut rest: Vec<String> = Vec::new();
        let mut j: usize = 1;
        while j < params.len()
            invariant
                1 <= j <= params@.len(),
                string_views(rest@) == string_views(params@).subrange(1, j as int),
            decreases params@.len() - j,
        {
            let w = params[j].clone();
            assert(w@ == string_views(params@)[j as int]);
            let ghost before = string_views(rest@);
            rest.push(w);
            assert(string_views(rest@) =~= before.push(w@));
            assert(string_views(rest@) =~= string_views(params@).subrange(1, j as int + 1));
            j += 1;
        }
        assert(string_views(params@).subrange(1, params@.len() as int) =~= string_views(params@).drop_first());
        let mut text = String::new();
        push_joined(&mut text, &rest);
        assert(text@ =~= join(string_views(params@).drop_first(), " "@));
        let ghost out = text_message(send_u@, notice, text@);
        let targets = split_char(params[0].as_str(), ',');
        let ghost ts = split(params@[0]@, ',');
        assert(ts == split(string_views(params@)[0], ','));
        let mut i: usize = 0;
        assert(ts.subrange(0, 0) =~= Seq::<Seq<char>>::empty());
        assert(delivery_views(deliveries@) =~= Seq::<(u64, MessageView)>::empty());
        assert(message_views(replies@) =~= Seq::<MessageView>::empty());
        while i < targets.len()
            invariant
                i <= targets@.len(),
                views(targets@) == ts,
                ts.len() == targets@.len(),
                out == text_message(send_u@, notice, text@),
                (delivery_views(deliveries@), message_views(replies@)) == msg_targets(
                    self@,
                    ts.subrange(0, i as int),
                    out,
                ),
            decreases targets@.len() - i,
        {
            let target = targets[i];
            let ghost pre = ts.subrange(0, i as int + 1);
            assert(pre.drop_last() =~= ts.subrange(0, i as int));
            assert(pre.last() == target@);
            match self.namespace.get(target) {
                Some(NamedEntity::User(uid)) => {
                    if self.user_alive(uid) {
                        let ghost before = delivery_views(deliveries@);
                        let command = if notice {
                            owned("NOTICE")
                        } else {
                            owned("PRIVMSG")
                        };
                        let ghost tv = text@;
                        let parameters = vec![text.clone()];
                        let m = Message {
                            tags: None,
                            prefix: Some(send_u.get_prefix()),
                            command,
                            parameters,
                        };
                        proof {
                            reveal_strlit("NOTICE");
                            reveal_strlit("PRIVMSG");
                            assert(m@.params =~= seq![tv]);
                        }
                        assert(m@ == out);
                        deliveries.push((uid, m));
                        assert(delivery_views(deliveries@) =~= before.push((uid, out)));
                    }
                },
                Some(NamedEntity::Nick(_)) => {},
                None => {
                    let ghost before = message_views(replies@);
                    replies.push(self.reply1(ERR_NOSUCHNICK, owned(target)));
                    assert(message_views(replies@) =~= before.push(
                        reply_msg(self@, ERR_NOSUCHNICK, seq![target@]),
                    ));
                },
            }
            i += 1;
        }
        assert(ts.subrange(0, ts.len() as int) =~= ts);
        (deliveries, replies)
    }
}

// ---------------------------------------------------------------------------
// dispatching a command

/// What handling a command gives: the messages for other users (by their
/// connection's id) and the replies for the sender.
pub struct Outcome {
    pub deliveries: Vec<(u64, Message)>,
    pub replies: Vec<Message>,
}

/// The commands that need a registered connection.
pub open spec fn needs_registration(cmd: Seq<char>) -> bool {
    cmd == "PART"@ || cmd == "JOIN"@ || cmd == "PRIVMSG"@ || cmd == "NOTICE"@ || cmd == "TOPIC"@
        || cmd == "LIST"@
}

/// What a command from connection `id` does: the next state, the
/// deliveries and the replies. The command name is read in any letter
/// case; `NICK` and `USER` drive the handshake, `PRIVMSG` and `NOTICE` are
/// for registered users; an unregistered connection is told so for the
/// commands that need registration, and any other command is unknown.
pub open spec fn spec_command(c: CoreView, id: u64, command: Seq<char>, params: Seq<Seq<char>>) -> (
    CoreView,
    Seq<(u64, MessageView)>,
    Seq<MessageView>,
) {
    let registered = client_type_of(c, id) is User;
    let cmd = ascii_upper(command);
    if cmd == "NICK"@ {
        (spec_nick(c, id, params).0, Seq::empty(), spec_nick(c, id, params).1)
    } else if cmd == "USER"@ {
        (spec_user(c, id, params).0, Seq::empty(), spec_user(c, id, params).1)
    } else if cmd == "PRIVMSG"@ && registered {
        let (d, r) = spec_msg(c, client_type_of(c, id)->User_0, params, false);
        (c, d, r)
    } else if cmd == "NOTICE"@ && registered {
        let (d, r) = spec_msg(c, client_type_of(c, id)->User_0, params, true);
        (c, d, r)
    } else if !registered && needs_registration(cmd) {
        (c, Seq::empty(), seq![reply_msg(c, ERR_NOTREGISTERED, Seq::empty())])
    } else {
        (c, Seq::empty(), seq![reply_msg(c, ERR_UNKNOWNCOMMAND, seq![cmd])])
    }
}

impl Core {
    /// Handles a command from connection `id` (see `spec_command`).
    pub fn command(&mut self, id: u64, message: Message) -> (res: Outcome)
        requires
            core_wf(old(self)@),
        ensures
            (final(self)@, delivery_views(res.deliveries@), message_views(res.replies@))
                == spec_command(old(self)@, id, message@.command, message@.params),
            core_wf(final(self)@),
    {
        let ghost c0 = self@;
        let ghost params_v = message@.params;
        let Message { tags: _, prefix: _, command, parameters } = message;
        assert(string_views(parameters@) == params_v);
        let cmd = to_ascii_uppercase(command.as_str());
        let sender = self.client_type_copy(id);
        let registered = match &sender {
            ClientType::User(_) => true,
            _ => false,
        };
        proof {
            reveal_strlit("NICK");
            reveal_strlit("USER");
            reveal_strlit("PRIVMSG");
            reveal_strlit("NOTICE");
            reveal_strlit("PART");
            reveal_strlit("JOIN");
            reveal_strlit("TOPIC");
            reveal_strlit("LIST");
        }
        if cmd == owned("NICK") {
            let replies = self.nick(id, &parameters);
            return Outcome { deliveries: Vec::new(), replies };
        }
        if cmd == owned("USER") {
            let replies = self.user(id, &parameters);
            return Outcome { deliveries: Vec::new(), replies };
        }
        if cmd == owned("PRIVMSG") || cmd == owned("NOTICE") {
            if let ClientType::User(u) = &sender {
                let notice = cmd == owned("NOTICE");
                assert(notice == (cmd@ == "NOTICE"@));
                assert(u@ == client_type_of(c0, id)->User_0);
                let (deliveries, replies) = self.msg(u, &parameters, notice);
                assert(message_views(replies@) == spec_msg(c0, u@, params_v, notice).1);
                assert("PRIVMSG"@.len() != "NOTICE"@.len());
                return Outcome { deliveries, replies };
            }
        }
        let mut replies: Vec<Message> = Vec::new();
        if !registered && (cmd == owned("PART") || cmd == owned("JOIN") || cmd == owned("PRIVMSG")
            || cmd == owned("NOTICE") || cmd == owned("TOPIC") || cmd == owned("LIST")) {
            replies.push(self.reply0(ERR_NOTREGISTERED));
        } else {
            let ghost cv = cmd@;
            replies.push(self.reply1(ERR_UNKNOWNCOMMAND, cmd));
            assert(message_views(replies@) =~= seq![reply_msg(c0, ERR_UNKNOWNCOMMAND, seq![cv])]);
        }
        let deliveries: Vec<(u64, Message)> = Vec::new();
        assert(delivery_views(deliveries@) =~= Seq::<(u64, MessageView)>::empty());
        assert(message_views(replies@) =~= spec_command(c0, id, command@, params_v).2);
        Outcome { deliveries, replies }
    }
}


// ---------------------------------------------------------------------------
// laws of the handshake and of messaging

/// The user that connection `id` of state `c` becomes when it registers.
pub open spec fn registered_user(
    c: CoreView,
    id: u64,
    nick: Seq<char>,
    username: Seq<char>,
    real_name: Seq<char>,
) -> UserView {
    UserView {
        id,
        nick,
        username,
        real_name,
        host: c.clients[id].host,
        server: c.hostname,
        registered: true,
    }
}

/// `NICK` and then `USER` on a fresh connection, with a valid free nick,
/// register it: the first gets no reply, the second gets the welcome, the
/// connection holds the user and the nick is bound to it.
pub proof fn law_register_nick_then_user(
    c: CoreView,
    id: u64,
    nick_params: Seq<Seq<char>>,
    user_params: Seq<Seq<char>>,
)
    requires
        core_wf(c),
        client_type_of(c, id) is Unregistered,
        nick_params.len() >= 1,
        spec_valid_nick(nick_params[0]),
        !c.names.contains_key(nick_params[0]),
        user_params.len() == 4,
    ensures
        ({
            let nick = nick_params[0];
            let (c1, r1) = spec_nick(c, id, nick_params);
            let (c2, r2) = spec_user(c1, id, user_params);
            &&& r1.len() == 0
            &&& r2 == welcome(c, nick, user_params[0], c.clients[id].host)
            &&& client_type_of(c2, id) == ClientTypeView::User(
                registered_user(c, id, nick, user_params[0], user_params[3]),
            )
            &&& c2.names == c.names.insert(nick, NamedEntity::User(id))
            &&& core_wf(c2)
        }),
{
    let nick = nick_params[0];
    assert(client_ok(c, id));
    let c1 = spec_nick(c, id, nick_params).0;
    assert(c1.clients[id].id == id);
    let c2 = spec_user(c1, id, user_params).0;
    assert forall|k: u64| #[trigger] c2.clients.contains_key(k) implies client_ok(c2, k) by {
        if k != id {
            assert(client_ok(c, k));
            assert(c2.clients[k] == c.clients[k]);
        }
    }
}

/// `USER` and then `NICK` on a fresh connection, with a valid free nick,
/// register it just as the other order does.
pub proof fn law_register_user_then_nick(
    c: CoreView,
    id: u64,
    user_params: Seq<Seq<char>>,
    nick_params: Seq<Seq<char>>,
)
    requires
        core_wf(c),
        client_type_of(c, id) is Unregistered,
        nick_params.len() >= 1,
        spec_valid_nick(nick_params[0]),
        !c.names.contains_key(nick_params[0]),
        user_params.len() == 4,
    ensures
        ({
            let nick = nick_params[0];
            let (c1, r1) = spec_user(c, id, user_params);
            let (c2, r2) = spec_nick(c1, id, nick_params);
            &&& r1.len() == 0
            &&& r2 == welcome(c, nick, user_params[0], c.clients[id].host)
            &&& client_type_of(c2, id) == ClientTypeView::User(
                registered_user(c, id, nick, user_params[0], user_params[3]),
            )
            &&& c2.names == c.names.insert(nick, NamedEntity::User(id))
            &&& core_wf(c2)
        }),
{
    let nick = nick_params[0];
    assert(client_ok(c, id));
    let c1 = spec_user(c, id, user_params).0;
    assert(c1.clients[id].id == id);
    let c2 = spec_nick(c1, id, nick_params).0;
    assert forall|k: u64| #[trigger] c2.clients.contains_key(k) implies client_ok(c2, k) by {
        if k != id {
            assert(client_ok(c, k));
            assert(c2.clients[k] == c.clients[k]);
        }
    }
}

/// A `NICK` without a nick, with a malformed nick or with a nick that is
/// taken changes nothing and is answered with exactly one error reply.
pub proof fn law_refused_nick_changes_nothing(c: CoreView, id: u64, params: Seq<Seq<char>>)
    requires
        params.len() == 0 || !spec_valid_nick(params[0]) || c.names.contains_key(params[0]),
    ensures
        spec_nick(c, id, params).0 == c,
        spec_nick(c, id, params).1.len() == 1,
        spec_nick(c, id, params).1[0].command == pad3(
            (if params.len() == 0 {
                ERR_NEEDMOREPARAMS
            } else if !spec_valid_nick(params[0]) {
                ERR_ERRONEOUSNICKNAME
            } else {
                ERR_NICKNAMEINUSE
            }) as nat,
        ),
{
}

/// A registered user who sends `NICK` with a valid free nick is renamed:
/// the new nick is bound to them, the old one is free, and nothing is
/// replied.
pub proof fn law_nick_change(c: CoreView, id: u64, params: Seq<Seq<char>>)
    requires
        core_wf(c),
        client_type_of(c, id) is User,
        params.len() >= 1,
        spec_valid_nick(params[0]),
        !c.names.contains_key(params[0]),
    ensures
        ({
            let u = client_type_of(c, id)->User_0;
            let (c2, r) = spec_nick(c, id, params);
            &&& r.len() == 0
            &&& c2.names == c.names.remove(u.nick).insert(params[0], NamedEntity::User(id))
            &&& !c2.names.contains_key(u.nick) || u.nick == params[0]
            &&& client_type_of(c2, id) == ClientTypeView::User(UserView { nick: params[0], ..u })
            &&& core_wf(c2)
        }),
{
    assert(client_ok(c, id));
    let u = client_type_of(c, id)->User_0;
    let c2 = spec_nick(c, id, params).0;
    assert forall|k: u64| #[trigger] c2.clients.contains_key(k) implies client_ok(c2, k) by {
        if k != id {
            assert(client_ok(c, k));
            let v = c.clients[k].client_type;
            if v is User {
                assert(c.names[v->User_0.nick] == NamedEntity::User(k));
                assert(v->User_0.nick != u.nick);
            }
        }
    }
}

/// A `PRIVMSG` from a registered user to the nick of a user who is still
/// there delivers the text, with the sender's prefix, to that user alone,
/// and nothing is replied.
pub proof fn law_privmsg_reaches_target(
    c: CoreView,
    sender: UserView,
    params: Seq<Seq<char>>,
    uid: u64,
)
    requires
        params.len() >= 2,
        !params[0].contains(','),
        c.names.contains_key(params[0]),
        c.names[params[0]] == NamedEntity::User(uid),
        user_alive(c, uid),
    ensures
        spec_msg(c, sender, params, false) == (
            seq![(uid, text_message(sender, false, join(params.drop_first(), " "@)))],
            Seq::<MessageView>::empty(),
        ),
{
    lemma_split_absent(params[0], ',');
    let ts = split(params[0], ',');
    let out = text_message(sender, false, join(params.drop_first(), " "@));
    assert(ts.drop_last() =~= Seq::<Seq<char>>::empty());
    assert(ts.last() == params[0]);
    let (d0, r0) = msg_targets(c, ts.drop_last(), out);
    assert(d0 == Seq::<(u64, MessageView)>::empty());
    assert(d0.push((uid, out)) =~= seq![(uid, out)]);
}

/// A `PRIVMSG` to a name that nobody holds is answered with
/// `ERR_NOSUCHNICK` for that name and delivers nothing.
pub proof fn law_privmsg_to_nobody(c: CoreView, sender: UserView, params: Seq<Seq<char>>)
    requires
        params.len() >= 2,
        !params[0].contains(','),
        !c.names.contains_key(params[0]),
    ensures
        spec_msg(c, sender, params, false) == (
            Seq::<(u64, MessageView)>::empty(),
            seq![reply_msg(c, ERR_NOSUCHNICK, seq![params[0]])],
        ),
{
    lemma_split_absent(params[0], ',');
    let ts = split(params[0], ',');
    let out = text_message(sender, false, join(params.drop_first(), " "@));
    assert(ts.drop_last() =~= Seq::<Seq<char>>::empty());
    assert(ts.last() == params[0]);
    let (d0, r0) = msg_targets(c, ts.drop_last(), out);
    assert(r0 == Seq::<MessageView>::empty());
    assert(r0.push(reply_msg(c, ERR_NOSUCHNICK, seq![params[0]])) =~= seq![
        reply_msg(c, ERR_NOSUCHNICK, seq![params[0]]),
    ]);
}


// ---------------------------------------------------------------------------
// writing a message as a protocol line

/// The first `i` parameters as they follow the command: each after a
/// space, the last of all after ` :` so that it may hold spaces.
pub open spec fn params_text(ps: Seq<Seq<char>>, i: int) -> Seq<char>
    decreases i,
{
    if i <= 0 {
        Seq::empty()
    } else {
        params_text(ps, i - 1) + (if i == ps.len() {
            " :"@
        } else {
            " "@
        }) + ps[i - 1]
    }
}

/// A message as a protocol line (without CR LF):
/// `['@' tags ' '] [':' prefix ' '] command params`.
pub open spec fn message_line(m: MessageView) -> Seq<char> {
    let tags_part = match m.tags {
        Some(t) => "@"@ + spec_assemble_tags(t) + " "@,
        None => Seq::empty(),
    };
    let prefix_part = match m.prefix {
        Some(p) => ":"@ + spec_assemble_prefix(p) + " "@,
        None => Seq::empty(),
    };
    tags_part + prefix_part + m.command + params_text(m.params, m.params.len() as int)
}

impl Message {
    /// The message as a protocol line, without CR LF.
    pub fn to_line(&self) -> (res: String)
        ensures
            res@ == message_line(self@),
    {
        let mut out = String::new();
        if let Some(t) = &self.tags {
            out.append("@");
            let ts = assemble_tags(t);
            out.append(ts.as_str());
            out.append(" ");
        }
        if let Some(p) = &self.prefix {
            out.append(":");
            let copy = Prefix {
                nick: match &p.nick {
                    Some(n) => Some(n.clone()),
                    None => None,
                },
                user: match &p.user {
                    Some(n) => Some(n.clone()),
                    None => None,
                },
                host: match &p.host {
                    Some(n) => Some(n.clone()),
                    None => None,
                },
            };
            assert(copy@ == p@);
            let ps = assemble_prefix(copy);
            out.append(ps.as_str());
            out.append(" ");
        }
        out.append(self.command.as_str());
        let ghost head = out@;
        let ghost ps = self@.params;
        let n = self.parameters.len();
        let mut i: usize = 0;
        while i < n
            invariant
                n == self.parameters@.len(),
                ps == self@.params,
                ps.len() == n,
                i <= n,
                out@ == head + params_text(ps, i as int),
            decreases n - i,
        {
            assert(ps[i as int] == self.parameters@[i as int]@);
            let ghost before = out@;
            if i + 1 == n {
                out.append(" :");
            } else {
                out.append(" ");
            }
            out.append(self.parameters[i].as_str());
            assert(out@ =~= head + params_text(ps, i as int + 1));
            i += 1;
        }
        out
    }
}


impl Core {
    /// Drops what is left of a user whose connection has gone stale: the
    /// connection filed under the user's id and the binding of its nick,
    /// whatever that binding is. The invariant is kept when the nick was
    /// bound to that user or to nothing.
    pub fn attempt_cleanup(&mut self, user: &User)
        requires
            core_wf(old(self)@),
        ensures
            final(self)@ == with_names(
                with_clients(old(self)@, old(self)@.clients.remove(user@.id)),
                old(self)@.names.remove(user@.nick),
            ),
            (old(self)@.names.contains_key(user@.nick) ==> old(self)@.names[user@.nick]
                == NamedEntity::User(user@.id)) ==> core_wf(final(self)@),
    {
        let id = user.get_id();
        let _gone = self.remove_client(id);
        let nick = user.get_nick();
        let ghost c1 = self@;
        let _unbound = self.remove_name(nick.as_str());
        proof {
            if c1.names.contains_key(user@.nick) ==> c1.names[user@.nick] == NamedEntity::User(user@.id) {
                assert forall|k: u64| #[trigger] self@.clients.contains_key(k) implies client_ok(self@, k) by {
                    assert(client_ok(c1, k));
                    let v = c1.clients[k].client_type;
                    if v is User {
                        assert(c1.names[v->User_0.nick] == NamedEntity::User(k));
                        assert(k != user@.id);
                    }
                }
            }
        }
    }
}


// ---------------------------------------------------------------------------
// a line from a connection

/// What a line from connection `id` does: `None` when the line
/// cannot be read as a command; otherwise what its command does (a prefix
/// sent by a client is ignored).
pub open spec fn spec_handle_line(c: CoreView, id: u64, line: Seq<char>) -> Option<
    (CoreView, Seq<(u64, MessageView)>, Seq<MessageView>),
> {
    match crate::parser::spec_parse_message(line) {
        Some(Ok(m)) => Some(spec_command(c, id, m.command, m.params)),
        _ => None,
    }
}

impl Core {
    /// Reads a line from connection `id` and handles its command (see
    /// `spec_handle_line`); `None`, with nothing changed, for a line that is
    /// not a command.
    pub fn handle_line(&mut self, id: u64, line: &str) -> (res: Option<Outcome>)
        requires
            core_wf(old(self)@),
        ensures
            match res {
                Some(o) => spec_handle_line(old(self)@, id, line@) == Some(
                    (final(self)@, delivery_views(o.deliveries@), message_views(o.replies@)),
                ),
                None => spec_handle_line(old(self)@, id, line@) is None && final(self)@
                    == old(self)@,
            },
            core_wf(final(self)@),
    {
        if !parse_message_defined(line) {
            return None;
        }
        match parse_message(line) {
            Ok(parsed) => {
                let ghost pv = parsed@;
                let ParsedMsg { opt_prefix: _, command, opt_params } = parsed;
                let message = Message { tags: None, prefix: None, command, parameters: opt_params };
                assert(message@.params == pv.params);
                Some(self.command(id, message))
            },
            Err(_) => None,
        }
    }
}


/// Changing a nick and changing it back leaves the namespace as it was.
pub proof fn law_nick_change_undone(
    names: Map<Seq<char>, NamedEntity>,
    old_nick: Seq<char>,
    new_nick: Seq<char>,
)
    requires
        names.contains_key(old_nick),
        !names.contains_key(new_nick),
    ensures
        spec_nick_change(names, old_nick, new_nick) matches Some(n1) && spec_nick_change(
            n1,
            new_nick,
            old_nick,
        ) == Some(names),
{
    let n1 = names.remove(old_nick).insert(new_nick, names[old_nick]);
    assert(n1.remove(new_nick).insert(old_nick, n1[new_nick]) =~= names);
}

/// The user that target `t` names, when it is bound to a user who is still
/// there.
pub open spec fn live_user_of(c: CoreView, t: Seq<char>) -> Option<u64> {
    if c.names.contains_key(t) && c.names[t] is User && user_alive(c, c.names[t]->User_0) {
        Some(c.names[t]->User_0)
    } else {
        None
    }
}

/// The deliveries of `out` to the targets that name live users: one for
/// each such target, in the order of the targets.
pub open spec fn deliveries_to_live(c: CoreView, ts: Seq<Seq<char>>, out: MessageView) -> Seq<
    (u64, MessageView),
> {
    ts.filter_map(
        |t: Seq<char>|
            match live_user_of(c, t) {
                Some(uid) => Some((uid, out)),
                None => None,
            },
    )
}

/// One `ERR_NOSUCHNICK` for each target that nobody holds, in order.
pub open spec fn unknown_target_replies(c: CoreView, ts: Seq<Seq<char>>) -> Seq<MessageView> {
    ts.filter_map(
        |t: Seq<char>|
            if c.names.contains_key(t) {
                None
            } else {
                Some(reply_msg(c, ERR_NOSUCHNICK, seq![t]))
            },
    )
}

proof fn lemma_msg_targets_closed(c: CoreView, ts: Seq<Seq<char>>, out: MessageView)
    ensures
        msg_targets(c, ts, out) == (deliveries_to_live(c, ts, out), unknown_target_replies(c, ts)),
    decreases ts.len(),
{
    if ts.len() > 0 {
        lemma_msg_targets_closed(c, ts.drop_last(), out);
        let (d, r) = msg_targets(c, ts.drop_last(), out);
        let t = ts.last();
        assert(d.push((c.names[t]->User_0, out)) =~= d + seq![(c.names[t]->User_0, out)]);
        assert(r.push(reply_msg(c, ERR_NOSUCHNICK, seq![t])) =~= r + seq![
            reply_msg(c, ERR_NOSUCHNICK, seq![t]),
        ]);
    }
}

/// Sending to the targets `a` and then `b` in one list is sending to `a`
/// and to `b`: the deliveries and the replies of the two lists, one after
/// the other. No target's delivery depends on the others.
pub proof fn law_msg_targets_append(c: CoreView, a: Seq<Seq<char>>, b: Seq<Seq<char>>, out: MessageView)
    ensures
        msg_targets(c, a + b, out) == (
            msg_targets(c, a, out).0 + msg_targets(c, b, out).0,
            msg_targets(c, a, out).1 + msg_targets(c, b, out).1,
        ),
    decreases b.len(),
{
    if b.len() == 0 {
        assert(a + b =~= a);
        assert(msg_targets(c, a, out).0 + msg_targets(c, b, out).0 =~= msg_targets(c, a, out).0);
        assert(msg_targets(c, a, out).1 + msg_targets(c, b, out).1 =~= msg_targets(c, a, out).1);
    } else {
        law_msg_targets_append(c, a, b.drop_last(), out);
        assert((a + b).drop_last() =~= a + b.drop_last());
        assert((a + b).last() == b.last());
        let (da, ra) = msg_targets(c, a, out);
        let (db, rb) = msg_targets(c, b.drop_last(), out);
        let t = b.last();
        assert((da + db).push((c.names[t]->User_0, out)) =~= da + db.push((c.names[t]->User_0, out)));
        assert((ra + rb).push(reply_msg(c, ERR_NOSUCHNICK, seq![t])) =~= ra + rb.push(
            reply_msg(c, ERR_NOSUCHNICK, seq![t]),
        ));
    }
}

/// A `PRIVMSG` or `NOTICE` with a target list and a text gives one
/// delivery of the text to each comma-separated target that names a user
/// who is still there, in the order of the list, and one `ERR_NOSUCHNICK`
/// for each target that nobody holds; nothing else.
pub proof fn law_msg_reaches_every_live_target(
    c: CoreView,
    sender: UserView,
    params: Seq<Seq<char>>,
    notice: bool,
)
    requires
        params.len() >= 2,
    ensures
        ({
            let ts = split(params[0], ',');
            let out = text_message(sender, notice, join(params.drop_first(), " "@));
            spec_msg(c, sender, params, notice) == (
                deliveries_to_live(c, ts, out),
                unknown_target_replies(c, ts),
            )
        }),
{
    let ts = split(params[0], ',');
    let out = text_message(sender, notice, join(params.drop_first(), " "@));
    lemma_msg_targets_closed(c, ts, out);
}

/// Two targets that name live users both get the message, the first one
/// first.
pub proof fn law_msg_two_live_targets(
    c: CoreView,
    t1: Seq<char>,
    t2: Seq<char>,
    out: MessageView,
    u1: u64,
    u2: u64,
)
    requires
        live_user_of(c, t1) == Some(u1),
        live_user_of(c, t2) == Some(u2),
    ensures
        msg_targets(c, seq![t1, t2], out) == (seq![(u1, out), (u2, out)], Seq::<MessageView>::empty()),
{
    let ts = seq![t1, t2];
    assert(ts.drop_last() =~= seq![t1]);
    assert(ts.last() == t2);
    assert(seq![t1].drop_last() =~= Seq::<Seq<char>>::empty());
    assert(seq![t1].last() == t1);
    let (d0, r0) = msg_targets(c, Seq::<Seq<char>>::empty(), out);
    assert(d0 == Seq::<(u64, MessageView)>::empty() && r0 == Seq::<MessageView>::empty());
    let (d1, r1) = msg_targets(c, seq![t1], out);
    assert(d1 =~= seq![(u1, out)] && r1 =~= Seq::<MessageView>::empty());
    assert(d1.push((u2, out)) =~= seq![(u1, out), (u2, out)]);
}

} // verus!
