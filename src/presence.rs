//! The presence and broadcast registry.
//!
//! A single registry value tracks every live real-time connection (its send
//! handle and its (server, channel) subscription), the set of connected users
//! and, per user, the number of live connections. Connection handles are plain
//! integers: whoever owns the transport keeps the map from handle to socket.
use std::collections::HashMap;
use std::collections::HashSet;
use vstd::prelude::*;
use vstd::std_specs::iter::IteratorSpec;

verus! {

broadcast use vstd::std_specs::hash::group_hash_axioms;

/// A chat line to deliver to every session subscribed to `(server_id, channel_id)`.
pub struct ChatMessage {
    pub server_id: i64,
    pub channel_id: i64,
    pub content: String,
}

/// A connection opens (or, with both ids zero, a login without a connection).
pub struct JoinChat {
    pub addr: u64,
    pub server_id: i64,
    pub channel_id: i64,
    pub user_id: i64,
}

/// A connection closes (`addr` given) or the user logs out (`addr` absent).
pub struct LeaveChat {
    pub user_id: i64,
    pub addr: Option<u64>,
}

/// Request for the snapshot of connected users.
pub struct GetConnectedUsers;

/// A non-real-time call observed a valid login for this user.
pub struct UserConnected {
    pub user_id: i64,
}

/// One live session: (send handle, server id, channel id).
pub type SessionEntry = (u64, i64, i64);

/// Number of live sessions recorded for `u` (zero when it has no entry).
pub open spec fn count_in(counts: Map<i64, usize>, u: i64) -> nat {
    if counts.contains_key(u) {
        counts[u] as nat
    } else {
        0
    }
}

/// Whether a join message carries the "no subscription" sentinel.
pub open spec fn is_login_only(server_id: i64, channel_id: i64) -> bool {
    server_id == 0 && channel_id == 0
}

/// The sessions left once every session with handle `addr` is dropped.
pub open spec fn without_handle(sessions: Seq<SessionEntry>, addr: u64) -> Seq<SessionEntry> {
    sessions.filter(other_handle(addr))
}

/// Holds of the sessions whose handle is not `addr`.
pub open spec fn other_handle(addr: u64) -> spec_fn(SessionEntry) -> bool {
    |e: SessionEntry| e.0 != addr
}

/// Holds of the sessions subscribed exactly to `(server_id, channel_id)`.
pub open spec fn subscribed_to(server_id: i64, channel_id: i64) -> spec_fn(SessionEntry) -> bool {
    |e: SessionEntry| e.1 == server_id && e.2 == channel_id
}

/// The send handle of a session.
pub open spec fn handle_of() -> spec_fn(SessionEntry) -> u64 {
    |e: SessionEntry| e.0
}

/// The handles, in registration order, of the sessions subscribed exactly to
/// `(server_id, channel_id)`.
pub open spec fn recipients(sessions: Seq<SessionEntry>, server_id: i64, channel_id: i64) -> Seq<
    u64,
> {
    sessions.filter(subscribed_to(server_id, channel_id)).map_values(handle_of())
}

/// The counters after `u` is given an entry, when it has none, of zero sessions.
pub open spec fn with_entry(counts: Map<i64, usize>, u: i64) -> Map<i64, usize> {
    if counts.contains_key(u) {
        counts
    } else {
        counts.insert(u, 0)
    }
}

/// What a join does to the registry.
pub open spec fn join_effect(pre: ChatServer, post: ChatServer, msg: JoinChat) -> bool {
    let u = msg.user_id;
    &&& post.connected() == pre.connected().insert(u)
    &&& if is_login_only(msg.server_id, msg.channel_id) {
        &&& post.sessions() == pre.sessions()
        &&& post.counts() == with_entry(pre.counts(), u)
    } else {
        &&& post.sessions() == pre.sessions().push((msg.addr, msg.server_id, msg.channel_id))
        &&& post.counts() == pre.counts().insert(u, (pre.count_of(u) + 1) as usize)
    }
}

/// What a leave does to the registry.
pub open spec fn leave_effect(pre: ChatServer, post: ChatServer, msg: LeaveChat) -> bool {
    let u = msg.user_id;
    match msg.addr {
        Some(h) => {
            &&& post.sessions() == without_handle(pre.sessions(), h)
            &&& post.count_of(u) == (if pre.count_of(u) > 0 {
                pre.count_of(u) - 1
            } else {
                0
            })
            &&& post.counts().contains_key(u) <==> post.count_of(u) > 0
            &&& post.counts().remove(u) == pre.counts().remove(u)
        },
        None => {
            &&& post.sessions() == pre.sessions()
            &&& post.counts() == pre.counts().remove(u)
        },
    }
}

/// What marking `user_id` connected does to the registry.
pub open spec fn mark_effect(pre: ChatServer, post: ChatServer, user_id: i64) -> bool {
    &&& post.sessions() == pre.sessions()
    &&& post.connected() == pre.connected().insert(user_id)
    &&& post.counts() == with_entry(pre.counts(), user_id)
}

/// The registry state.
pub struct ChatServer {
    sessions: Vec<SessionEntry>,
    connected_users: HashSet<i64>,
    user_session_count: HashMap<i64, usize>,
}

impl ChatServer {
    /// The live sessions, in registration order.
    pub closed spec fn sessions(&self) -> Seq<SessionEntry> {
        self.sessions@
    }

    /// The users currently marked connected.
    pub closed spec fn connected(&self) -> Set<i64> {
        self.connected_users@
    }

    /// The per-user session counters.
    pub closed spec fn counts(&self) -> Map<i64, usize> {
        self.user_session_count@
    }

    /// A user is connected exactly when it has a counter entry.
    pub open spec fn wf(&self) -> bool {
        self.connected() == self.counts().dom()
    }

    /// Live session count of `u`.
    pub open spec fn count_of(&self, u: i64) -> nat {
        count_in(self.counts(), u)
    }

    /// An empty registry.
    pub fn new() -> (r: Self)
        ensures
            r.wf(),
            r.sessions() == Seq::<SessionEntry>::empty(),
            r.connected() == Set::<i64>::empty(),
            r.counts() == Map::<i64, usize>::empty(),
    {
        let r = ChatServer {
            sessions: Vec::new(),
            connected_users: HashSet::new(),
            user_session_count: HashMap::new(),
        };
        proof {
            assert(r.connected() =~= r.counts().dom());
        }
        r
    }

    /// Number of live sessions of `user_id`.
    pub fn session_count(&self, user_id: i64) -> (r: usize)
        ensures
            r as nat == self.count_of(user_id),
    {
        match self.user_session_count.get(&user_id) {
            Some(c) => *c,
            None => 0,
        }
    }

    /// Whether `user_id` is in the connected set.
    pub fn is_connected(&self, user_id: i64) -> (r: bool)
        ensures
            r == self.connected().contains(user_id),
    {
        self.connected_users.contains(&user_id)
    }

    /// Number of live sessions over all users.
    pub fn session_total(&self) -> (r: usize)
        ensures
            r == self.sessions().len(),
    {
        self.sessions.len()
    }

    /// The handles to which a broadcast on `(server_id, channel_id)` is
    /// delivered: exactly the sessions subscribed to that pair, in order.
    pub fn send_to_channel(&self, server_id: i64, channel_id: i64) -> (r: Vec<u64>)
        ensures
            r@ == recipients(self.sessions(), server_id, channel_id),
    {
        let mut out: Vec<u64> = Vec::new();
        let mut i: usize = 0;
        while i < self.sessions.len()
            invariant
                i <= self.sessions@.len(),
                out@ == recipients(self.sessions@.subrange(0, i as int), server_id, channel_id),
            decreases self.sessions@.len() - i,
        {
            let e = self.sessions[i];
            proof {
                let pre = self.sessions@.subrange(0, i as int);
                assert(self.sessions@.subrange(0, i as int + 1) =~= pre.push(e));
                let pred = subscribed_to(server_id, channel_id);
                pre.lemma_filter_push(e, pred);
                assert(pre.filter(pred).push(e).map_values(handle_of()) =~= pre.filter(
                    pred,
                ).map_values(handle_of()).push(e.0));
            }
            if e.1 == server_id && e.2 == channel_id {
                out.push(e.0);
            }
            i = i + 1;
        }
        proof {
            assert(self.sessions@.subrange(0, i as int) =~= self.sessions@);
        }
        out
    }

    /// Snapshot of the connected users, each once, in no particular order.
    pub fn get_connected_users(&self, _msg: GetConnectedUsers) -> (r: Vec<i64>)
        ensures
            r@.to_set() == self.connected(),
            r@.no_duplicates(),
    {
        let mut out: Vec<i64> = Vec::new();
        let ghost full = vstd::std_specs::hash::spec_hash_keys_iter(
            &self.connected_users,
        ).remaining().unref();
        for u in it: self.connected_users.iter()
            invariant
                out@.len() == it.index(),
                it.seq().unref() == full,
                out@ == full.subrange(0, out@.len() as int),
        {
            proof {
                assert(full.subrange(0, out@.len() as int + 1) =~= full.subrange(0, out@.len() as int).push(
                    *u,
                ));
            }
            out.push(*u);
        }
        proof {
            assert(full.subrange(0, out@.len() as int) =~= full);
        }
        out
    }

    /// Registers a connection, or with the "no subscription" sentinel only
    /// marks the user connected.
    pub fn join_chat(&mut self, msg: JoinChat)
        requires
            old(self).wf(),
            !is_login_only(msg.server_id, msg.channel_id) ==> old(self).count_of(msg.user_id)
                < usize::MAX,
        ensures
            final(self).wf(),
            join_effect(*old(self), *final(self), msg),
    {
        let u = msg.user_id;
        if msg.server_id != 0 || msg.channel_id != 0 {
            self.sessions.push((msg.addr, msg.server_id, msg.channel_id));
            let c = self.session_count(u);
            self.user_session_count.insert(u, c + 1);
        } else if !self.user_session_count.contains_key(&u) {
            self.user_session_count.insert(u, 0);
        }
        self.connected_users.insert(u);
        proof {
            assert(self.connected() =~= self.counts().dom());
        }
    }

    /// Closes one connection (handle given) or logs the user out (no handle).
    pub fn leave_chat(&mut self, msg: LeaveChat)
        requires
            old(self).wf(),
        ensures
            final(self).wf(),
            leave_effect(*old(self), *final(self), msg),
    {
        let u = msg.user_id;
        match msg.addr {
            Some(h) => {
                self.remove_session(h);
                let c = self.session_count(u);
                if self.user_session_count.contains_key(&u) {
                    let left: usize = if c > 0 {
                        c - 1
                    } else {
                        0
                    };
                    if left == 0 {
                        self.connected_users.remove(&u);
                        self.user_session_count.remove(&u);
                    } else {
                        self.user_session_count.insert(u, left);
                    }
                }
            },
            None => {
                self.connected_users.remove(&u);
                self.user_session_count.remove(&u);
            },
        }
        proof {
            assert(self.connected() =~= self.counts().dom());
            assert(self.counts().remove(u) =~= old(self).counts().remove(u));
        }
    }

    /// Marks a user connected without touching its session count.
    pub fn user_connected(&mut self, msg: UserConnected)
        requires
            old(self).wf(),
        ensures
            final(self).wf(),
            mark_effect(*old(self), *final(self), msg.user_id),
    {
        let u = msg.user_id;
        self.connected_users.insert(u);
        if !self.user_session_count.contains_key(&u) {
            self.user_session_count.insert(u, 0);
        }
        proof {
            assert(self.connected() =~= self.counts().dom());
        }
    }

    /// Drops every session whose handle is `addr`.
    fn remove_session(&mut self, addr: u64)
        ensures
            final(self).sessions@ == without_handle(old(self).sessions@, addr),
            final(self).connected_users@ == old(self).connected_users@,
            final(self).user_session_count@ == old(self).user_session_count@,
    {
        let mut kept: Vec<SessionEntry> = Vec::new();
        let mut i: usize = 0;
        while i < self.sessions.len()
            invariant
                i <= self.sessions@.len(),
                kept@ == self.sessions@.subrange(0, i as int).filter(other_handle(addr)),
            decreases self.sessions@.len() - i,
        {
            let e = self.sessions[i];
            proof {
                let pre = self.sessions@.subrange(0, i as int);
                assert(self.sessions@.subrange(0, i as int + 1) =~= pre.push(e));
                pre.lemma_filter_push(e, other_handle(addr));
            }
            if e.0 != addr {
                kept.push(e);
            }
            i = i + 1;
        }
        proof {
            assert(self.sessions@.subrange(0, i as int) =~= self.sessions@);
        }
        self.sessions = kept;
    }
}

/// Opening a connection and then closing the same handle brings the user's
/// session count back to its value before the join, and leaves the user in the
/// connected set exactly when that count is still positive; when the handle
/// was fresh, the sessions are those before the join.
pub proof fn lemma_join_then_leave(
    r0: ChatServer,
    r1: ChatServer,
    r2: ChatServer,
    h: u64,
    u: i64,
    s: i64,
    c: i64,
)
    requires
        r0.wf(),
        r1.wf(),
        r2.wf(),
        r0.count_of(u) < usize::MAX,
        !is_login_only(s, c),
        join_effect(r0, r1, (JoinChat { addr: h, server_id: s, channel_id: c, user_id: u })),
        leave_effect(r1, r2, (LeaveChat { user_id: u, addr: Some(h) })),
    ensures
        r2.count_of(u) == r0.count_of(u),
        r2.connected().contains(u) <==> r2.count_of(u) > 0,
        (forall|i: int| 0 <= i < r0.sessions().len() ==> (#[trigger] r0.sessions()[i]).0 != h)
            ==> r2.sessions() == r0.sessions(),
{
    if forall|i: int| 0 <= i < r0.sessions().len() ==> (#[trigger] r0.sessions()[i]).0 != h {
        r0.sessions().lemma_filter_push((h, s, c), other_handle(h));
        crate::mutation::lemma_filter_all(r0.sessions(), other_handle(h));
    }
}

/// A broadcast on `(s, c)` reaches a handle exactly when some live session with
/// that handle is subscribed to `(s, c)`: sessions on other channels or servers
/// never receive it.
pub proof fn lemma_broadcast_reaches_only_subscribers(reg: ChatServer, s: i64, c: i64, h: u64)
    ensures
        recipients(reg.sessions(), s, c).contains(h) <==> exists|i: int|
            0 <= i < reg.sessions().len() && #[trigger] reg.sessions()[i] == (h, s, c),
{
    let sessions = reg.sessions();
    let pred = subscribed_to(s, c);
    let kept = sessions.filter(pred);
    if recipients(sessions, s, c).contains(h) {
        let j = choose|j: int| 0 <= j < kept.len() && kept.map_values(handle_of())[j] == h;
        let e = kept[j];
        sessions.lemma_filter_pred(pred, j);
        assert(kept.contains(e));
        sessions.lemma_filter_contains_rev(pred, e);
        let i = choose|i: int| 0 <= i < sessions.len() && sessions[i] == e;
        assert(sessions[i] == (h, s, c));
    }
    if exists|i: int| 0 <= i < sessions.len() && #[trigger] sessions[i] == (h, s, c) {
        let i = choose|i: int| 0 <= i < sessions.len() && #[trigger] sessions[i] == (h, s, c);
        sessions.lemma_filter_contains(pred, i);
        let j = choose|j: int| 0 <= j < kept.len() && kept[j] == (h, s, c);
        assert(kept.map_values(handle_of())[j] == h);
    }
}

/// Marking a user connected twice in a row leaves the registry as marking it once.
pub proof fn lemma_mark_connected_idempotent(r0: ChatServer, r1: ChatServer, r2: ChatServer, u: i64)
    requires
        mark_effect(r0, r1, u),
        mark_effect(r1, r2, u),
    ensures
        r2.connected() == r1.connected(),
        r2.counts() == r1.counts(),
        r2.sessions() == r1.sessions(),
{
    assert(r2.connected() =~= r1.connected());
}

} // verus!
