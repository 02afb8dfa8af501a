//! Read models served to clients: a server's member roster with roles and
//! presence, a user's servers with the user's role in each, and a channel's
//! messages with their authors' names.
use crate::model::{copy_opt, Message, ServerView};
use crate::store::{find_server, has_member, of_channel, server_view, Store};
use vstd::prelude::*;

verus! {

broadcast use crate::store::group_store_views;

/// A user's role in a server.
#[derive(PartialEq, Eq, Structural, Clone, Copy)]
pub enum Role {
    Owner,
    Admin,
    Member,
}

impl Role {
    /// The label of the role on the wire.
    pub fn label(&self) -> (r: &'static str)
        ensures
            r@ == role_label(*self),
    {
        match self {
            Role::Owner => "fondateur",
            Role::Admin => "admin",
            Role::Member => "membre",
        }
    }
}

/// The wire label of a role.
pub open spec fn role_label(r: Role) -> Seq<char> {
    match r {
        Role::Owner => "fondateur"@,
        Role::Admin => "admin"@,
        Role::Member => "membre"@,
    }
}

/// One line of a server's roster.
pub struct MemberEntry {
    pub user_id: i64,
    pub role: Role,
    pub online: bool,
}

/// Whether `id` already has a line in `lines`.
pub open spec fn listed(lines: Seq<(i64, Role)>, id: i64) -> bool {
    exists|i: int| 0 <= i < lines.len() && #[trigger] lines[i].0 == id
}

/// `lines` followed by a line `(id, role)` for each id of `ids` that has none yet.
pub open spec fn append_new(lines: Seq<(i64, Role)>, ids: Seq<i64>, role: Role) -> Seq<(i64, Role)>
    decreases ids.len(),
{
    if ids.len() == 0 {
        lines
    } else {
        let before = append_new(lines, ids.drop_last(), role);
        if listed(before, ids.last()) {
            before
        } else {
            before.push((ids.last(), role))
        }
    }
}

/// The roster of a server: its owner, then its admins, then its members, each
/// user once, under its first role.
pub open spec fn roster(s: ServerView) -> Seq<(i64, Role)> {
    append_new(
        append_new(seq![(s.owner_id, Role::Owner)], s.admin_ids, Role::Admin),
        s.member_ids,
        Role::Member,
    )
}

/// The user and role of a roster line.
pub open spec fn line_of(e: MemberEntry) -> (i64, Role) {
    (e.user_id, e.role)
}

/// `r` is the roster of `s`, each line marked online exactly when its user is
/// in `connected`.
pub open spec fn is_roster_of(r: Seq<MemberEntry>, s: ServerView, connected: Seq<i64>) -> bool {
    &&& r.len() == roster(s).len()
    &&& forall|i: int|
        0 <= i < r.len() ==> line_of(#[trigger] r[i]) == roster(s)[i] && r[i].online
            == connected.contains(r[i].user_id)
}

/// Whether `id` occurs in `v`.
fn occurs(v: &Vec<i64>, id: i64) -> (r: bool)
    ensures
        r == v@.contains(id),
{
    crate::model::contains_id(v, id)
}

/// Whether some line of `out` is for `id`.
fn has_line(out: &Vec<MemberEntry>, id: i64) -> (r: bool)
    ensures
        r == listed(out@.map_values(|e: MemberEntry| line_of(e)), id),
{
    let ghost lines = out@.map_values(|e: MemberEntry| line_of(e));
    let mut i: usize = 0;
    while i < out.len()
        invariant
            i <= out@.len(),
            lines == out@.map_values(|e: MemberEntry| line_of(e)),
            forall|j: int| 0 <= j < i ==> #[trigger] lines[j].0 != id,
        decreases out@.len() - i,
    {
        if out[i].user_id == id {
            assert(lines[i as int].0 == id);
            return true;
        }
        i = i + 1;
    }
    false
}

/// Appends a line for each id of `ids` not listed yet.
fn push_new(out: &mut Vec<MemberEntry>, ids: &Vec<i64>, role: Role, connected: &Vec<i64>)
    requires
        forall|i: int|
            0 <= i < old(out)@.len() ==> #[trigger] old(out)@[i].online == connected@.contains(
                old(out)@[i].user_id,
            ),
    ensures
        final(out)@.map_values(|e: MemberEntry| line_of(e)) == append_new(
            old(out)@.map_values(|e: MemberEntry| line_of(e)),
            ids@,
            role,
        ),
        forall|i: int|
            0 <= i < final(out)@.len() ==> #[trigger] final(out)@[i].online == connected@.contains(
                final(out)@[i].user_id,
            ),
{
    let ghost start = old(out)@.map_values(|e: MemberEntry| line_of(e));
    let mut k: usize = 0;
    while k < ids.len()
        invariant
            k <= ids@.len(),
            out@.map_values(|e: MemberEntry| line_of(e)) == append_new(
                start,
                ids@.subrange(0, k as int),
                role,
            ),
            forall|i: int|
                0 <= i < out@.len() ==> #[trigger] out@[i].online == connected@.contains(
                    out@[i].user_id,
                ),
        decreases ids@.len() - k,
    {
        let id = ids[k];
        proof {
            assert(ids@.subrange(0, k as int + 1).drop_last() =~= ids@.subrange(0, k as int));
        }
        if !has_line(out, id) {
            let e = MemberEntry { user_id: id, role, online: occurs(connected, id) };
            let ghost before = out@;
            out.push(e);
            proof {
                assert(out@.map_values(|e: MemberEntry| line_of(e)) =~= before.map_values(
                    |e: MemberEntry| line_of(e),
                ).push((id, role)));
            }
        }
        k = k + 1;
    }
    proof {
        assert(ids@.subrange(0, k as int) =~= ids@);
    }
}

/// One server as listed for a user.
pub struct ServerSummary {
    pub id: i64,
    pub name: String,
    pub image: String,
    pub is_owner: bool,
    pub is_admin: bool,
}

/// `r` describes server `s` for user `u`; a server without image shows the
/// default logo.
pub open spec fn summarizes(r: ServerSummary, s: ServerView, u: i64) -> bool {
    &&& r.id == s.id
    &&& r.name@ == s.name
    &&& r.image@ == (match s.image {
        Some(img) => img,
        None => "/logo_fluxy.png"@,
    })
    &&& r.is_owner == (s.owner_id == u)
    &&& r.is_admin == s.admin_ids.contains(u)
}

/// One message as served to clients, with its author's name when known.
pub struct MessageEntry {
    pub id: i64,
    pub message: String,
    pub user: i64,
    pub username: Option<String>,
    pub time: String,
}

/// The name registered last for user `id` in `users`.
pub open spec fn name_of(users: Seq<(i64, String)>, id: i64) -> Option<String>
    decreases users.len(),
{
    if users.len() == 0 {
        None
    } else if users.last().0 == id {
        Some(users.last().1)
    } else {
        name_of(users.drop_last(), id)
    }
}

/// `e` serves message `m`, whose author is named in `users`.
pub open spec fn serves(e: MessageEntry, m: Message, users: Seq<(i64, String)>) -> bool {
    &&& e.id == m.id
    &&& e.message == m.content
    &&& e.user == m.user
    &&& e.username == name_of(users, m.user)
    &&& e.time == m.time
}

/// The name registered last for user `id`.
fn lookup_name(users: &Vec<(i64, String)>, id: i64) -> (r: Option<String>)
    ensures
        r == name_of(users@, id),
{
    let mut i: usize = users.len();
    proof {
        assert(users@.subrange(0, i as int) =~= users@);
    }
    while i > 0
        invariant
            i <= users@.len(),
            name_of(users@, id) == name_of(users@.subrange(0, i as int), id),
        decreases i,
    {
        proof {
            assert(users@.subrange(0, i as int).drop_last() =~= users@.subrange(0, i as int - 1));
        }
        if users[i - 1].0 == id {
            return Some(users[i - 1].1.clone());
        }
        i = i - 1;
    }
    None
}

impl Store {
    /// The roster of server `server_id`, each line marked online when its user
    /// is in `connected`; `None` when the server is unknown.
    pub fn server_members(&self, server_id: i64, connected: &Vec<i64>) -> (r: Option<
        Vec<MemberEntry>,
    >)
        ensures
            match find_server(self.servers(), server_id) {
                Some(s) => r is Some && is_roster_of(r.unwrap()@, s, connected@),
                None => r is None,
            },
    {
        let server = match self.get_server(server_id) {
            Some(s) => s,
            None => {
                return None;
            },
        };
        let mut out: Vec<MemberEntry> = Vec::new();
        out.push(
            MemberEntry {
                user_id: server.owner_id,
                role: Role::Owner,
                online: occurs(connected, server.owner_id),
            },
        );
        proof {
            assert(out@.map_values(|e: MemberEntry| line_of(e)) =~= seq![
                (server.owner_id, Role::Owner),
            ]);
        }
        push_new(&mut out, &server.admin_ids, Role::Admin, connected);
        push_new(&mut out, &server.member_ids, Role::Member, connected);
        proof {
            let lines = out@.map_values(|e: MemberEntry| line_of(e));
            assert forall|i: int| 0 <= i < out@.len() implies line_of(#[trigger] out@[i])
                == roster(server@)[i] by {
                assert(lines[i] == line_of(out@[i]));
            }
        }
        Some(out)
    }

    /// The servers that count `user_id` among their members, each with the
    /// user's standing in it, in store order.
    pub fn user_servers(&self, user_id: i64) -> (r: Vec<ServerSummary>)
        ensures
            r@.len() == self.servers().filter(has_member(user_id)).len(),
            forall|i: int|
                0 <= i < r@.len() ==> summarizes(
                    #[trigger] r@[i],
                    self.servers().filter(has_member(user_id))[i],
                    user_id,
                ),
    {
        let servers = self.get_servers_by_member(user_id);
        let ghost views = servers@.map_values(server_view());
        let mut out: Vec<ServerSummary> = Vec::new();
        let mut i: usize = 0;
        while i < servers.len()
            invariant
                i <= servers@.len(),
                out@.len() == i,
                views == servers@.map_values(server_view()),
                forall|j: int| 0 <= j < i ==> summarizes(#[trigger] out@[j], views[j], user_id),
            decreases servers@.len() - i,
        {
            let s = &servers[i];
            assert(views[i as int] == s@);
            let image = match &s.image {
                Some(img) => img.clone(),
                None => "/logo_fluxy.png".to_owned(),
            };
            out.push(
                ServerSummary {
                    id: s.id,
                    name: s.name.clone(),
                    image,
                    is_owner: s.owner_id == user_id,
                    is_admin: crate::model::contains_id(&s.admin_ids, user_id),
                },
            );
            i = i + 1;
        }
        out
    }

    /// The messages of channel `channel_id`, in store order, each with the
    /// name `users` registers last for its author.
    pub fn channel_messages(&self, channel_id: i64, users: &Vec<(i64, String)>) -> (r: Vec<
        MessageEntry,
    >)
        ensures
            r@.len() == self.messages().filter(of_channel(channel_id)).len(),
            forall|i: int|
                0 <= i < r@.len() ==> serves(
                    #[trigger] r@[i],
                    self.messages().filter(of_channel(channel_id))[i],
                    users@,
                ),
    {
        let msgs = self.get_messages_of_channel(channel_id);
        let mut out: Vec<MessageEntry> = Vec::new();
        let mut i: usize = 0;
        while i < msgs.len()
            invariant
                i <= msgs@.len(),
                out@.len() == i,
                msgs@ == self.messages().filter(of_channel(channel_id)),
                forall|j: int| 0 <= j < i ==> serves(#[trigger] out@[j], msgs@[j], users@),
            decreases msgs@.len() - i,
        {
            let m = &msgs[i];
            out.push(
                MessageEntry {
                    id: m.id,
                    message: m.content.clone(),
                    user: m.user,
                    username: lookup_name(users, m.user),
                    time: m.time.clone(),
                },
            );
            i = i + 1;
        }
        out
    }
}

} // verus!
