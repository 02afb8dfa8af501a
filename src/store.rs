//! The membership store and its authorization predicates.
//!
//! The store holds server, channel and message records in insertion order.
//! Server ids are unique; every read is a scan and every predicate answers
//! `false` for a record that is not there.
use crate::model::{contains_id, Channel, Message, Server, ServerView};
use vstd::prelude::*;

verus! {

/// The records, in insertion order, of the three collections.
pub struct Store {
    pub(crate) servers: Vec<Server>,
    pub(crate) channels: Vec<Channel>,
    pub(crate) messages: Vec<Message>,
}

/// The view of a server record.
pub open spec fn server_view() -> spec_fn(Server) -> ServerView {
    |s: Server| s@
}

/// No two servers share an id.
pub open spec fn unique_ids(servers: Seq<ServerView>) -> bool {
    forall|i: int, j: int|
        0 <= i < servers.len() && 0 <= j < servers.len() && i != j ==> #[trigger] servers[i].id
            != #[trigger] servers[j].id
}

/// No two servers hold the same invite code.
pub open spec fn unique_links(servers: Seq<ServerView>) -> bool {
    forall|i: int, j: int|
        0 <= i < servers.len() && 0 <= j < servers.len() && i != j && #[trigger] servers[i].link
            is Some ==> #[trigger] servers[j].link != servers[i].link
}

/// Server ids and invite codes are unique.
pub open spec fn well_formed(servers: Seq<ServerView>) -> bool {
    unique_ids(servers) && unique_links(servers)
}

/// No two records of `s` share a key.
pub open spec fn unique_keys<A>(s: Seq<A>, key: spec_fn(A) -> i64) -> bool {
    forall|i: int, j: int|
        0 <= i < s.len() && 0 <= j < s.len() && i != j ==> key(#[trigger] s[i]) != key(
            #[trigger] s[j],
        )
}

/// The id of a channel.
pub open spec fn channel_key() -> spec_fn(Channel) -> i64 {
    |c: Channel| c.id
}

/// The id of a message.
pub open spec fn message_key() -> spec_fn(Message) -> i64 {
    |m: Message| m.id
}

/// Filtering keeps keys unique.
pub proof fn lemma_filter_keeps_keys<A>(s: Seq<A>, key: spec_fn(A) -> i64, p: spec_fn(A) -> bool)
    requires
        unique_keys(s, key),
    ensures
        unique_keys(s.filter(p), key),
    decreases s.len(),
{
    reveal(Seq::filter);
    if s.len() > 0 {
        let rest = s.drop_last();
        assert(unique_keys(rest, key)) by {
            assert forall|i: int, j: int|
                0 <= i < rest.len() && 0 <= j < rest.len() && i != j implies key(#[trigger] rest[i])
                != key(#[trigger] rest[j]) by {
                assert(rest[i] == s[i] && rest[j] == s[j]);
            }
        }
        lemma_filter_keeps_keys(rest, key, p);
        if p(s.last()) {
            let f = rest.filter(p);
            let last = s.last();
            assert forall|i: int| 0 <= i < f.len() implies key(f[i]) != key(last) by {
                assert(f.contains(f[i]));
                rest.lemma_filter_contains_rev(p, f[i]);
                let k = choose|k: int| 0 <= k < rest.len() && rest[k] == f[i];
                assert(s[k] == rest[k]);
                assert(s[s.len() - 1] == last);
            }
            let g = f.push(last);
            assert(s.filter(p) == g);
            assert forall|a: int, b: int|
                0 <= a < g.len() && 0 <= b < g.len() && a != b implies key(#[trigger] g[a]) != key(
                #[trigger] g[b],
            ) by {
                if a < f.len() && b < f.len() {
                    assert(g[a] == f[a] && g[b] == f[b]);
                } else if a < f.len() {
                    assert(g[a] == f[a]);
                } else {
                    assert(g[b] == f[b]);
                }
            }
        }
    }
}

/// `u` owns the server with id `sid`.
pub open spec fn owner_in(servers: Seq<ServerView>, sid: i64, u: i64) -> bool {
    exists|i: int| 0 <= i < servers.len() && #[trigger] servers[i].id == sid && servers[i].owner_id == u
}

/// `u` is in the admin set of the server with id `sid`.
pub open spec fn admin_in(servers: Seq<ServerView>, sid: i64, u: i64) -> bool {
    exists|i: int|
        0 <= i < servers.len() && #[trigger] servers[i].id == sid && servers[i].admin_ids.contains(u)
}

/// `u` is in the member set of the server with id `sid`.
pub open spec fn member_in(servers: Seq<ServerView>, sid: i64, u: i64) -> bool {
    exists|i: int|
        0 <= i < servers.len() && #[trigger] servers[i].id == sid && servers[i].member_ids.contains(
            u,
        )
}

/// Some server holds the invite code `code`.
pub open spec fn link_in(servers: Seq<ServerView>, code: Seq<char>) -> bool {
    exists|i: int| 0 <= i < servers.len() && #[trigger] servers[i].link == Some(code)
}

/// A channel with id `cid` belongs to the server with id `sid`.
pub open spec fn channel_in(channels: Seq<Channel>, sid: i64, cid: i64) -> bool {
    exists|i: int| 0 <= i < channels.len() && #[trigger] channels[i].id == cid && channels[i].server_id == sid
}

/// Holds of the channels of server `sid`.
pub open spec fn of_server(sid: i64) -> spec_fn(Channel) -> bool {
    |c: Channel| c.server_id == sid
}

/// Holds of the messages of channel `cid`.
pub open spec fn of_channel(cid: i64) -> spec_fn(Message) -> bool {
    |m: Message| m.channel_id == cid
}

/// Holds of the servers owned by `u`.
pub open spec fn owned_by(u: i64) -> spec_fn(ServerView) -> bool {
    |s: ServerView| s.owner_id == u
}

/// Holds of the servers that count `u` among their members.
pub open spec fn has_member(u: i64) -> spec_fn(ServerView) -> bool {
    |s: ServerView| s.member_ids.contains(u)
}

/// Holds of the servers whose id is not `sid`.
pub open spec fn server_other_than(sid: i64) -> spec_fn(ServerView) -> bool {
    |s: ServerView| s.id != sid
}

/// Holds of the channels whose id is not `cid`.
pub open spec fn channel_other_than(cid: i64) -> spec_fn(Channel) -> bool {
    |c: Channel| c.id != cid
}

/// Holds of the messages outside channel `cid`.
pub open spec fn message_outside(cid: i64) -> spec_fn(Message) -> bool {
    |m: Message| m.channel_id != cid
}

/// Holds of the messages whose id is not `mid`.
pub open spec fn message_other_than(mid: i64) -> spec_fn(Message) -> bool {
    |m: Message| m.id != mid
}

/// Largest id of a sequence of ids, zero when empty or when all are negative.
pub open spec fn max_id(ids: Seq<i64>) -> i64
    decreases ids.len(),
{
    if ids.len() == 0 {
        0
    } else {
        let rest = max_id(ids.drop_last());
        if ids.last() > rest {
            ids.last()
        } else {
            rest
        }
    }
}

/// Ids of the servers.
pub open spec fn server_ids(servers: Seq<ServerView>) -> Seq<i64> {
    servers.map_values(|s: ServerView| s.id)
}

/// Ids of the channels.
pub open spec fn channel_ids(channels: Seq<Channel>) -> Seq<i64> {
    channels.map_values(|c: Channel| c.id)
}

/// Ids of the messages.
pub open spec fn message_ids(messages: Seq<Message>) -> Seq<i64> {
    messages.map_values(|m: Message| m.id)
}

/// No id of `ids` exceeds `max_id(ids)`.
pub proof fn lemma_max_id_bounds(ids: Seq<i64>, i: int)
    requires
        0 <= i < ids.len(),
    ensures
        ids[i] <= max_id(ids),
    decreases ids.len(),
{
    if i < ids.len() - 1 {
        lemma_max_id_bounds(ids.drop_last(), i);
    }
}

/// The first record of `servers` with id `sid`, if any.
pub open spec fn find_server(servers: Seq<ServerView>, sid: i64) -> Option<ServerView>
    decreases servers.len(),
{
    if servers.len() == 0 {
        None
    } else if servers[0].id == sid {
        Some(servers[0])
    } else {
        find_server(servers.drop_first(), sid)
    }
}

/// The first record of `channels` with id `cid`, if any.
pub open spec fn find_channel(channels: Seq<Channel>, cid: i64) -> Option<Channel>
    decreases channels.len(),
{
    if channels.len() == 0 {
        None
    } else if channels[0].id == cid {
        Some(channels[0])
    } else {
        find_channel(channels.drop_first(), cid)
    }
}

/// The first record of `messages` with id `mid`, if any.
pub open spec fn find_message(messages: Seq<Message>, mid: i64) -> Option<Message>
    decreases messages.len(),
{
    if messages.len() == 0 {
        None
    } else if messages[0].id == mid {
        Some(messages[0])
    } else {
        find_message(messages.drop_first(), mid)
    }
}

/// Some message with id `mid` was written by `u`.
pub open spec fn authored_in(messages: Seq<Message>, mid: i64, u: i64) -> bool {
    exists|i: int| 0 <= i < messages.len() && #[trigger] messages[i].id == mid && messages[i].user == u
}

/// The server a message lives in: the server of its channel, zero when the
/// message or its channel is unknown.
pub open spec fn server_of_message(channels: Seq<Channel>, messages: Seq<Message>, mid: i64) -> i64 {
    match find_message(messages, mid) {
        Some(m) => match find_channel(channels, m.channel_id) {
            Some(c) => c.server_id,
            None => 0,
        },
        None => 0,
    }
}

/// The server a channel belongs to, zero when the channel is unknown.
pub open spec fn server_of_channel(channels: Seq<Channel>, cid: i64) -> i64 {
    match find_channel(channels, cid) {
        Some(c) => c.server_id,
        None => 0,
    }
}

/// The server records are the views of the stored servers.
pub(crate) broadcast proof fn lemma_servers_view(s: &Store)
    ensures
        #[trigger] s.servers() == s.servers@.map_values(server_view()),
{
}

/// The channel records are the stored channels.
pub(crate) broadcast proof fn lemma_channels_view(s: &Store)
    ensures
        #[trigger] s.channels() == s.channels@,
{
}

/// The message records are the stored messages.
pub(crate) broadcast proof fn lemma_messages_view(s: &Store)
    ensures
        #[trigger] s.messages() == s.messages@,
{
}

pub(crate) broadcast group group_store_views {
    lemma_servers_view,
    lemma_channels_view,
    lemma_messages_view,
}

/// Whether no two channels share an id.
fn channel_ids_unique(v: &Vec<Channel>) -> (r: bool)
    ensures
        r == unique_keys(v@, channel_key()),
{
    let mut i: usize = 0;
    while i < v.len()
        invariant
            i <= v@.len(),
            forall|a: int, b: int|
                0 <= a < i && 0 <= b < v@.len() && a != b ==> #[trigger] v@[a].id != #[trigger] v@[b].id,
        decreases v@.len() - i,
    {
        let mut j: usize = 0;
        while j < v.len()
            invariant
                i < v@.len(),
                j <= v@.len(),
                forall|a: int, b: int|
                    0 <= a < i && 0 <= b < v@.len() && a != b ==> #[trigger] v@[a].id
                        != #[trigger] v@[b].id,
                forall|b: int| 0 <= b < j && b != i ==> v@[i as int].id != #[trigger] v@[b].id,
            decreases v@.len() - j,
        {
            if j != i && v[i].id == v[j].id {
                assert(channel_key()(v@[i as int]) == channel_key()(v@[j as int]));
                return false;
            }
            j = j + 1;
        }
        i = i + 1;
    }
    proof {
        assert forall|a: int, b: int|
            0 <= a < v@.len() && 0 <= b < v@.len() && a != b implies channel_key()(#[trigger] v@[a])
            != channel_key()(#[trigger] v@[b]) by {
            assert(v@[a].id != v@[b].id);
        }
    }
    true
}

/// Whether no two messages share an id.
fn message_ids_unique(v: &Vec<Message>) -> (r: bool)
    ensures
        r == unique_keys(v@, message_key()),
{
    let mut i: usize = 0;
    while i < v.len()
        invariant
            i <= v@.len(),
            forall|a: int, b: int|
                0 <= a < i && 0 <= b < v@.len() && a != b ==> #[trigger] v@[a].id != #[trigger] v@[b].id,
        decreases v@.len() - i,
    {
        let mut j: usize = 0;
        while j < v.len()
            invariant
                i < v@.len(),
                j <= v@.len(),
                forall|a: int, b: int|
                    0 <= a < i && 0 <= b < v@.len() && a != b ==> #[trigger] v@[a].id
                        != #[trigger] v@[b].id,
                forall|b: int| 0 <= b < j && b != i ==> v@[i as int].id != #[trigger] v@[b].id,
            decreases v@.len() - j,
        {
            if j != i && v[i].id == v[j].id {
                assert(message_key()(v@[i as int]) == message_key()(v@[j as int]));
                return false;
            }
            j = j + 1;
        }
        i = i + 1;
    }
    proof {
        assert forall|a: int, b: int|
            0 <= a < v@.len() && 0 <= b < v@.len() && a != b implies message_key()(#[trigger] v@[a])
            != message_key()(#[trigger] v@[b]) by {
            assert(v@[a].id != v@[b].id);
        }
    }
    true
}

/// The three collections of the store.
pub enum Collection {
    Server,
    Channel,
    Message,
}

impl Store {
    /// The server records.
    pub closed spec fn servers(&self) -> Seq<ServerView> {
        self.servers@.map_values(server_view())
    }

    /// The channel records.
    pub closed spec fn channels(&self) -> Seq<Channel> {
        self.channels@
    }

    /// The message records.
    pub closed spec fn messages(&self) -> Seq<Message> {
        self.messages@
    }

    /// Server, channel and message ids are unique, and so are invite codes.
    pub open spec fn wf(&self) -> bool {
        &&& well_formed(self.servers())
        &&& unique_keys(self.channels(), channel_key())
        &&& unique_keys(self.messages(), message_key())
    }

    /// The ids of a collection.
    pub open spec fn ids_of(&self, c: Collection) -> Seq<i64> {
        match c {
            Collection::Server => server_ids(self.servers()),
            Collection::Channel => channel_ids(self.channels()),
            Collection::Message => message_ids(self.messages()),
        }
    }

    /// An empty store.
    pub fn new() -> (r: Store)
        ensures
            r.wf(),
            r.servers() == Seq::<ServerView>::empty(),
            r.channels() == Seq::<Channel>::empty(),
            r.messages() == Seq::<Message>::empty(),
    {
        let r = Store { servers: Vec::new(), channels: Vec::new(), messages: Vec::new() };
        proof {
            assert(r.servers() =~= Seq::<ServerView>::empty());
        }
        r
    }

    /// Whether `user_id` owns server `server_id`.
    pub fn is_owner(&self, server_id: i64, user_id: i64) -> (r: bool)
        ensures
            r == owner_in(self.servers(), server_id, user_id),
    {
        let mut i: usize = 0;
        while i < self.servers.len()
            invariant
                i <= self.servers@.len(),
                forall|j: int|
                    0 <= j < i ==> !(#[trigger] self.servers()[j].id == server_id
                        && self.servers()[j].owner_id == user_id),
            decreases self.servers@.len() - i,
        {
            let s = &self.servers[i];
            assert(self.servers()[i as int] == s@);
            if s.id == server_id && s.owner_id == user_id {
                assert(self.servers()[i as int].id == server_id);
                return true;
            }
            i = i + 1;
        }
        false
    }

    /// Whether `user_id` is an admin of server `server_id`.
    pub fn is_admin(&self, server_id: i64, user_id: i64) -> (r: bool)
        ensures
            r == admin_in(self.servers(), server_id, user_id),
    {
        let mut i: usize = 0;
        while i < self.servers.len()
            invariant
                i <= self.servers@.len(),
                forall|j: int|
                    0 <= j < i ==> !(#[trigger] self.servers()[j].id == server_id
                        && self.servers()[j].admin_ids.contains(user_id)),
            decreases self.servers@.len() - i,
        {
            let s = &self.servers[i];
            assert(self.servers()[i as int] == s@);
            if s.id == server_id && contains_id(&s.admin_ids, user_id) {
                assert(self.servers()[i as int].id == server_id);
                return true;
            }
            i = i + 1;
        }
        false
    }

    /// Whether `user_id` is a member of server `server_id`.
    pub fn is_member(&self, server_id: i64, user_id: i64) -> (r: bool)
        ensures
            r == member_in(self.servers(), server_id, user_id),
    {
        let mut i: usize = 0;
        while i < self.servers.len()
            invariant
                i <= self.servers@.len(),
                forall|j: int|
                    0 <= j < i ==> !(#[trigger] self.servers()[j].id == server_id
                        && self.servers()[j].member_ids.contains(user_id)),
            decreases self.servers@.len() - i,
        {
            let s = &self.servers[i];
            assert(self.servers()[i as int] == s@);
            if s.id == server_id && contains_id(&s.member_ids, user_id) {
                assert(self.servers()[i as int].id == server_id);
                return true;
            }
            i = i + 1;
        }
        false
    }

    /// Whether channel `channel_id` is one of the channels of server `server_id`.
    pub fn is_channel_of_server(&self, server_id: i64, channel_id: i64) -> (r: bool)
        ensures
            r == channel_in(self.channels(), server_id, channel_id),
    {
        let mut i: usize = 0;
        while i < self.channels.len()
            invariant
                i <= self.channels@.len(),
                forall|j: int|
                    0 <= j < i ==> !(#[trigger] self.channels@[j].id == channel_id
                        && self.channels@[j].server_id == server_id),
            decreases self.channels@.len() - i,
        {
            let c = &self.channels[i];
            if c.id == channel_id && c.server_id == server_id {
                return true;
            }
            i = i + 1;
        }
        false
    }

    /// The server with id `server_id`, if any.
    pub fn get_server(&self, server_id: i64) -> (r: Option<Server>)
        ensures
            match r {
                Some(s) => find_server(self.servers(), server_id) == Some(s@),
                None => find_server(self.servers(), server_id) is None,
            },
    {
        let mut i: usize = 0;
        proof {
            assert(self.servers().subrange(0, self.servers().len() as int) =~= self.servers());
        }
        while i < self.servers.len()
            invariant
                i <= self.servers@.len(),
                find_server(self.servers(), server_id) == find_server(
                    self.servers().subrange(i as int, self.servers@.len() as int),
                    server_id,
                ),
            decreases self.servers@.len() - i,
        {
            let ghost rest = self.servers().subrange(i as int, self.servers@.len() as int);
            assert(rest.drop_first() =~= self.servers().subrange(
                i as int + 1,
                self.servers@.len() as int,
            ));
            if self.servers[i].id == server_id {
                return Some(self.servers[i].duplicate());
            }
            i = i + 1;
        }
        None
    }

    /// The channel with id `channel_id`, if any.
    pub fn get_channel_by_id(&self, channel_id: i64) -> (r: Option<Channel>)
        ensures
            r == find_channel(self.channels(), channel_id),
    {
        let mut i: usize = 0;
        proof {
            assert(self.channels@.subrange(0, self.channels@.len() as int) =~= self.channels@);
        }
        while i < self.channels.len()
            invariant
                i <= self.channels@.len(),
                find_channel(self.channels@, channel_id) == find_channel(
                    self.channels@.subrange(i as int, self.channels@.len() as int),
                    channel_id,
                ),
            decreases self.channels@.len() - i,
        {
            let ghost rest = self.channels@.subrange(i as int, self.channels@.len() as int);
            assert(rest.drop_first() =~= self.channels@.subrange(
                i as int + 1,
                self.channels@.len() as int,
            ));
            if self.channels[i].id == channel_id {
                return Some(self.channels[i].duplicate());
            }
            i = i + 1;
        }
        None
    }

    /// The message with id `message_id`, if any.
    pub fn get_message_by_id(&self, message_id: i64) -> (r: Option<Message>)
        ensures
            r == find_message(self.messages(), message_id),
    {
        let mut i: usize = 0;
        proof {
            assert(self.messages@.subrange(0, self.messages@.len() as int) =~= self.messages@);
        }
        while i < self.messages.len()
            invariant
                i <= self.messages@.len(),
                find_message(self.messages@, message_id) == find_message(
                    self.messages@.subrange(i as int, self.messages@.len() as int),
                    message_id,
                ),
            decreases self.messages@.len() - i,
        {
            let ghost rest = self.messages@.subrange(i as int, self.messages@.len() as int);
            assert(rest.drop_first() =~= self.messages@.subrange(
                i as int + 1,
                self.messages@.len() as int,
            ));
            if self.messages[i].id == message_id {
                return Some(self.messages[i].duplicate());
            }
            i = i + 1;
        }
        None
    }

    /// The id of the server holding message `message_id`, zero when unknown.
    pub fn get_server_id_by_message_id(&self, message_id: i64) -> (r: i64)
        ensures
            r == server_of_message(self.channels(), self.messages(), message_id),
    {
        match self.get_message_by_id(message_id) {
            Some(m) => match self.get_channel_by_id(m.channel_id) {
                Some(c) => c.server_id,
                None => 0,
            },
            None => 0,
        }
    }

    /// The id of the server of channel `channel_id`, zero when unknown.
    pub fn get_server_id_by_channel_id(&self, channel_id: i64) -> (r: i64)
        ensures
            r == server_of_channel(self.channels(), channel_id),
    {
        match self.get_channel_by_id(channel_id) {
            Some(c) => c.server_id,
            None => 0,
        }
    }

    /// The servers owned by `owner_id`, in store order.
    pub fn get_servers_by_owner(&self, owner_id: i64) -> (r: Vec<Server>)
        ensures
            r@.map_values(server_view()) == self.servers().filter(owned_by(owner_id)),
    {
        let mut out: Vec<Server> = Vec::new();
        let mut i: usize = 0;
        while i < self.servers.len()
            invariant
                i <= self.servers@.len(),
                out@.map_values(server_view()) == self.servers().subrange(0, i as int).filter(
                    owned_by(owner_id),
                ),
            decreases self.servers@.len() - i,
        {
            let s = self.servers[i].duplicate();
            proof {
                let pre = self.servers().subrange(0, i as int);
                assert(self.servers().subrange(0, i as int + 1) =~= pre.push(s@));
                pre.lemma_filter_push(s@, owned_by(owner_id));
                assert(out@.push(s).map_values(server_view()) =~= out@.map_values(
                    server_view(),
                ).push(s@));
            }
            if s.owner_id == owner_id {
                out.push(s);
            }
            i = i + 1;
        }
        proof {
            assert(self.servers().subrange(0, i as int) =~= self.servers());
        }
        out
    }

    /// The servers that count `user_id` among their members, in store order.
    pub fn get_servers_by_member(&self, user_id: i64) -> (r: Vec<Server>)
        ensures
            r@.map_values(server_view()) == self.servers().filter(has_member(user_id)),
    {
        let mut out: Vec<Server> = Vec::new();
        let mut i: usize = 0;
        while i < self.servers.len()
            invariant
                i <= self.servers@.len(),
                out@.map_values(server_view()) == self.servers().subrange(0, i as int).filter(
                    has_member(user_id),
                ),
            decreases self.servers@.len() - i,
        {
            let s = self.servers[i].duplicate();
            proof {
                let pre = self.servers().subrange(0, i as int);
                assert(self.servers().subrange(0, i as int + 1) =~= pre.push(s@));
                pre.lemma_filter_push(s@, has_member(user_id));
                assert(out@.push(s).map_values(server_view()) =~= out@.map_values(
                    server_view(),
                ).push(s@));
            }
            if contains_id(&s.member_ids, user_id) {
                out.push(s);
            }
            i = i + 1;
        }
        proof {
            assert(self.servers().subrange(0, i as int) =~= self.servers());
        }
        out
    }

    /// The channels of server `server_id`, in store order.
    pub fn get_channels_of_server(&self, server_id: i64) -> (r: Vec<Channel>)
        ensures
            r@ == self.channels().filter(of_server(server_id)),
    {
        let mut out: Vec<Channel> = Vec::new();
        let mut i: usize = 0;
        while i < self.channels.len()
            invariant
                i <= self.channels@.len(),
                out@ == self.channels@.subrange(0, i as int).filter(of_server(server_id)),
            decreases self.channels@.len() - i,
        {
            let c = self.channels[i].duplicate();
            proof {
                let pre = self.channels@.subrange(0, i as int);
                assert(self.channels@.subrange(0, i as int + 1) =~= pre.push(c));
                pre.lemma_filter_push(c, of_server(server_id));
            }
            if c.server_id == server_id {
                out.push(c);
            }
            i = i + 1;
        }
        proof {
            assert(self.channels@.subrange(0, i as int) =~= self.channels@);
        }
        out
    }

    /// The messages of channel `channel_id`, in store order.
    pub fn get_messages_of_channel(&self, channel_id: i64) -> (r: Vec<Message>)
        ensures
            r@ == self.messages().filter(of_channel(channel_id)),
    {
        let mut out: Vec<Message> = Vec::new();
        let mut i: usize = 0;
        while i < self.messages.len()
            invariant
                i <= self.messages@.len(),
                out@ == self.messages@.subrange(0, i as int).filter(of_channel(channel_id)),
            decreases self.messages@.len() - i,
        {
            let m = self.messages[i].duplicate();
            proof {
                let pre = self.messages@.subrange(0, i as int);
                assert(self.messages@.subrange(0, i as int + 1) =~= pre.push(m));
                pre.lemma_filter_push(m, of_channel(channel_id));
            }
            if m.channel_id == channel_id {
                out.push(m);
            }
            i = i + 1;
        }
        proof {
            assert(self.messages@.subrange(0, i as int) =~= self.messages@);
        }
        out
    }

    /// The largest id in a collection, zero for an empty one.
    pub fn get_last_id(&self, collection: Collection) -> (r: i64)
        ensures
            r == max_id(self.ids_of(collection)),
    {
        let ghost ids = self.ids_of(collection);
        let n: usize = match collection {
            Collection::Server => self.servers.len(),
            Collection::Channel => self.channels.len(),
            Collection::Message => self.messages.len(),
        };
        let mut best: i64 = 0;
        let mut i: usize = 0;
        while i < n
            invariant
                i <= n,
                n == ids.len(),
                ids == self.ids_of(collection),
                best == max_id(ids.subrange(0, i as int)),
            decreases n - i,
        {
            let id = match collection {
                Collection::Server => self.servers[i].id,
                Collection::Channel => self.channels[i].id,
                Collection::Message => self.messages[i].id,
            };
            proof {
                assert(id == ids[i as int]);
                assert(ids.subrange(0, i as int + 1).drop_last() =~= ids.subrange(0, i as int));
            }
            if id > best {
                best = id;
            }
            i = i + 1;
        }
        proof {
            assert(ids.subrange(0, i as int) =~= ids);
        }
        best
    }

    /// Whether some server currently holds invite code `code`.
    pub fn verify_link_exist(&self, code: &str) -> (r: bool)
        ensures
            r == link_in(self.servers(), code@),
    {
        let wanted = code.to_owned();
        let mut i: usize = 0;
        while i < self.servers.len()
            invariant
                i <= self.servers@.len(),
                wanted@ == code@,
                forall|j: int| 0 <= j < i ==> #[trigger] self.servers()[j].link != Some(code@),
            decreases self.servers@.len() - i,
        {
            assert(self.servers()[i as int] == self.servers@[i as int]@);
            match &self.servers[i].link {
                Some(l) => {
                    if *l == wanted {
                        assert(self.servers()[i as int].link == Some(code@));
                        return true;
                    }
                },
                None => {},
            }
            i = i + 1;
        }
        false
    }

    /// A store holding the given records, in the given order; `None` when two
    /// servers share an id or an invite code, or two channels or two messages
    /// share an id.
    pub fn from_records(servers: Vec<Server>, channels: Vec<Channel>, messages: Vec<Message>) -> (r:
        Option<Store>)
        ensures
            r is Some <==> (well_formed(servers@.map_values(server_view())) && unique_keys(
                channels@,
                channel_key(),
            ) && unique_keys(messages@, message_key())),
            r is Some ==> {
                let st = r.unwrap();
                &&& st.wf()
                &&& st.servers() == servers@.map_values(server_view())
                &&& st.channels() == channels@
                &&& st.messages() == messages@
            },
    {
        let ghost views = servers@.map_values(server_view());
        let mut i: usize = 0;
        while i < servers.len()
            invariant
                i <= servers@.len(),
                views == servers@.map_values(server_view()),
                forall|a: int, b: int|
                    0 <= a < i && 0 <= b < servers@.len() && a != b ==> #[trigger] views[a].id
                        != #[trigger] views[b].id,
                forall|a: int, b: int|
                    0 <= a < i && 0 <= b < servers@.len() && a != b && #[trigger] views[a].link is Some
                        ==> #[trigger] views[b].link != views[a].link,
            decreases servers@.len() - i,
        {
            let mut j: usize = 0;
            while j < servers.len()
                invariant
                    i < servers@.len(),
                    j <= servers@.len(),
                    views == servers@.map_values(server_view()),
                    forall|a: int, b: int|
                        0 <= a < i && 0 <= b < servers@.len() && a != b ==> #[trigger] views[a].id
                            != #[trigger] views[b].id,
                    forall|a: int, b: int|
                        0 <= a < i && 0 <= b < servers@.len() && a != b && #[trigger] views[a].link
                            is Some ==> #[trigger] views[b].link != views[a].link,
                    forall|b: int| 0 <= b < j && b != i ==> views[i as int].id != #[trigger] views[b].id,
                    forall|b: int|
                        0 <= b < j && b != i && views[i as int].link is Some ==> #[trigger] views[b].link
                            != views[i as int].link,
                decreases servers@.len() - j,
            {
                assert(views[i as int] == servers@[i as int]@ && views[j as int] == servers@[j as int]@);
                if j != i {
                    if servers[i].id == servers[j].id {
                        assert(views[i as int].id == views[j as int].id);
                        return None;
                    }
                    let same_link = match (&servers[i].link, &servers[j].link) {
                        (Some(x), Some(y)) => *x == *y,
                        _ => false,
                    };
                    if same_link {
                        assert(views[i as int].link is Some && views[j as int].link
                            == views[i as int].link);
                        return None;
                    }
                }
                j = j + 1;
            }
            i = i + 1;
        }
        if !channel_ids_unique(&channels) || !message_ids_unique(&messages) {
            return None;
        }
        Some(Store { servers, channels, messages })
    }

    /// Number of records of a collection.
    pub fn collection_len(&self, collection: Collection) -> (r: usize)
        ensures
            r == self.ids_of(collection).len(),
    {
        match collection {
            Collection::Server => self.servers.len(),
            Collection::Channel => self.channels.len(),
            Collection::Message => self.messages.len(),
        }
    }

    /// The records, in store order.
    pub fn into_records(self) -> (r: (Vec<Server>, Vec<Channel>, Vec<Message>))
        ensures
            r.0@.map_values(server_view()) == self.servers(),
            r.1@ == self.channels(),
            r.2@ == self.messages(),
    {
        (self.servers, self.channels, self.messages)
    }
}

} // verus!
