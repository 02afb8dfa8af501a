//! The authorization-gated operations of the store.
//!
//! Each operation resolves the server concerned, checks the acting user's role
//! and, only when the check passes, writes. A refused operation changes nothing
//! and reports `false` (or an error, for the operations that name one).
use crate::edit::{edit_where_id, edit_where_link, ServerEdit};
use crate::model::{Channel, Message, Server, ServerView};
use crate::platform::{
    is_alphanumeric_byte, is_blank, is_blank_text, now_rfc3339, push_char, random_alphanumeric,
    same_text,
};
use crate::store::{
    admin_in, authored_in, channel_ids, channel_in, find_server, link_in, max_id, member_in, message_ids,
    message_other_than, of_channel, of_server, owner_in, server_ids, server_of_channel, server_of_message,
    server_other_than, unique_ids, Collection, Store,
};
use vstd::prelude::*;

verus! {

broadcast use crate::store::group_store_views;

/// Number of characters of an invite code.
pub const INVITE_CODE_LEN: usize = 9;

/// Upper bound on the draws made to find an unused invite code.
pub const INVITE_CODE_DRAWS: u64 = 0xffff_ffff_ffff_ffff;

/// The image a new server keeps: a given image unless it is blank.
pub open spec fn kept_image(image: Option<String>) -> Option<Seq<char>> {
    match image {
        Some(img) => if !is_blank_text(img@) {
            Some(img@)
        } else {
            None
        },
        None => None,
    }
}

/// The record of a newly created server.
pub open spec fn new_server(id: i64, name: Seq<char>, image: Option<Seq<char>>, owner: i64) -> ServerView {
    ServerView {
        id,
        name,
        image,
        owner_id: owner,
        admin_ids: Seq::empty(),
        member_ids: seq![owner],
        link: None,
    }
}

/// `u` may manage server `sid`: it is its owner or one of its admins.
pub open spec fn manages(servers: Seq<ServerView>, sid: i64, u: i64) -> bool {
    owner_in(servers, sid, u) || admin_in(servers, sid, u)
}

/// Whether `code` is a well-formed invite code.
pub open spec fn is_invite_code(code: Seq<char>) -> bool {
    &&& code.len() == INVITE_CODE_LEN
    &&& forall|i: int| 0 <= i < code.len() ==> is_alphanumeric_byte(#[trigger] code[i] as u8) && (
    code[i] as u32) < 0x80
}

/// Result of trying to install a given invite code.
#[derive(Debug)]
pub enum InviteOutcome {
    /// The user is neither owner nor admin of the server.
    Denied,
    /// Another server already holds the code.
    Taken,
    /// The code is now the server's invite code.
    Issued,
}

/// No server holds a well-formed invite code.
pub open spec fn no_code_held(servers: Seq<ServerView>) -> bool {
    forall|i: int|
        0 <= i < servers.len() ==> !(#[trigger] servers[i].link matches Some(l) && is_invite_code(l))
}

/// Why no invite code was issued.
#[derive(Debug)]
pub enum InviteError {
    /// The user is neither owner nor admin of the server.
    Denied,
    /// Every code drawn was already held by some server.
    Exhausted,
}

/// `u` may remove `target` from server `sid`: nobody removes the owner, the
/// owner removes anyone else, an admin who is not the owner removes no other
/// admin, and a plain member removes only itself.
pub open spec fn may_remove(servers: Seq<ServerView>, sid: i64, u: i64, target: i64) -> bool {
    &&& !(admin_in(servers, sid, u) && !owner_in(servers, sid, u) && admin_in(servers, sid, target)
        && u != target)
    &&& !owner_in(servers, sid, target)
    &&& (manages(servers, sid, u) || u == target)
}

/// Holds of the channels whose id is not in `ids`.
pub open spec fn channel_not_in(ids: Seq<i64>) -> spec_fn(Channel) -> bool {
    |c: Channel| !ids.contains(c.id)
}

/// Holds of the messages whose channel id is not in `ids`.
pub open spec fn message_not_in(ids: Seq<i64>) -> spec_fn(Message) -> bool {
    |m: Message| !ids.contains(m.channel_id)
}

/// The ids of the channels of server `sid`.
pub open spec fn channels_of(channels: Seq<Channel>, sid: i64) -> Seq<i64> {
    channel_ids(channels.filter(of_server(sid)))
}

/// `new` is `old` with its text replaced by `content`.
pub open spec fn reworded(old: Message, new: Message, content: Seq<char>) -> bool {
    &&& new.id == old.id
    &&& new.channel_id == old.channel_id
    &&& new.user == old.user
    &&& new.time == old.time
    &&& new.content@ == content
}

/// `new` is `old` renamed to `name`.
pub open spec fn channel_renamed(old: Channel, new: Channel, name: Seq<char>) -> bool {
    &&& new.id == old.id
    &&& new.server_id == old.server_id
    &&& new.position == old.position
    &&& new.name@ == name
}

/// The text of an optional text.
pub open spec fn opt_str(o: Option<&str>) -> Option<Seq<char>> {
    match o {
        Some(s) => Some(s@),
        None => None,
    }
}

/// The name an update applies: a given name unless it is blank.
pub open spec fn applied_name(name: Option<&str>) -> Option<Seq<char>> {
    match name {
        Some(n) => if !is_blank_text(n@) {
            Some(n@)
        } else {
            None
        },
        None => None,
    }
}

/// The servers after server `sid` takes `name` and `image`, where given.
pub open spec fn updated_servers(
    servers: Seq<ServerView>,
    sid: i64,
    name: Option<Seq<char>>,
    image: Option<Seq<char>>,
) -> Seq<ServerView> {
    servers.map_values(
        |v: ServerView|
            if v.id == sid {
                ServerView {
                    name: match name {
                        Some(n) => n,
                        None => v.name,
                    },
                    image: match image {
                        Some(i) => Some(i),
                        None => v.image,
                    },
                    ..v
                }
            } else {
                v
            },
    )
}

/// Why a role change was refused.
#[derive(Debug)]
pub enum RoleError {
    /// Only the owner changes roles.
    PermissionDenied,
    /// The role is neither `admin` nor `membre`.
    InvalidInput,
}

/// Appending a record whose key exceeds the largest key keeps keys unique.
pub proof fn lemma_push_fresh_key<A>(s: Seq<A>, key: spec_fn(A) -> i64, x: A)
    requires
        crate::store::unique_keys(s, key),
        key(x) == max_id(s.map_values(key)) + 1,
    ensures
        crate::store::unique_keys(s.push(x), key),
{
    let ids = s.map_values(key);
    assert forall|k: int| 0 <= k < s.len() implies key(#[trigger] s[k]) < key(x) by {
        assert(ids[k] == key(s[k]));
        crate::store::lemma_max_id_bounds(ids, k);
    }
    let t = s.push(x);
    assert forall|a: int, b: int|
        0 <= a < t.len() && 0 <= b < t.len() && a != b implies key(#[trigger] t[a]) != key(
        #[trigger] t[b],
    ) by {
        if a < s.len() && b < s.len() {
            assert(t[a] == s[a] && t[b] == s[b]);
        } else if a < s.len() {
            assert(t[a] == s[a]);
        } else {
            assert(t[b] == s[b]);
        }
    }
}

/// An id occurs in `ids.push(y)` exactly when it occurs in `ids` or is `y`.
pub proof fn lemma_push_contains(ids: Seq<i64>, y: i64, x: i64)
    ensures
        ids.push(y).contains(x) <==> (ids.contains(x) || x == y),
{
    let t = ids.push(y);
    if t.contains(x) {
        let i = choose|i: int| 0 <= i < t.len() && t[i] == x;
        if i < ids.len() {
            assert(ids[i] == x);
        }
    }
    if ids.contains(x) {
        let i = choose|i: int| 0 <= i < ids.len() && ids[i] == x;
        assert(t[i] == x);
    }
    if x == y {
        assert(t[ids.len() as int] == x);
    }
}

/// What renaming a channel does to the store.
pub open spec fn rename_channel_effect(
    pre: Store,
    post: Store,
    channel_id: i64,
    name: Seq<char>,
    user_id: i64,
    r: bool,
) -> bool {
    let sid = server_of_channel(pre.channels(), channel_id);
    &&& r == (sid != 0 && manages(pre.servers(), sid, user_id))
    &&& post.servers() == pre.servers()
    &&& post.messages() == pre.messages()
    &&& post.channels().len() == pre.channels().len()
    &&& forall|i: int|
        0 <= i < pre.channels().len() ==> if r && pre.channels()[i].id == channel_id {
            channel_renamed(pre.channels()[i], #[trigger] post.channels()[i], name)
        } else {
            post.channels()[i] == pre.channels()[i]
        }
}

/// What a transfer of ownership does to the store.
pub open spec fn switch_owner_effect(
    pre: Store,
    post: Store,
    server_id: i64,
    user_id: i64,
    user_to_replace: i64,
    r: bool,
) -> bool {
    &&& r == owner_in(pre.servers(), server_id, user_id)
    &&& post.servers() == (if r {
        edit_where_id(pre.servers(), server_id, ServerEdit::SetOwner(user_to_replace))
    } else {
        pre.servers()
    })
    &&& post.channels() == pre.channels()
    &&& post.messages() == pre.messages()
}

/// What deleting a server does to the store.
pub open spec fn delete_server_effect(
    pre: Store,
    post: Store,
    server_id: i64,
    user_id: i64,
    r: bool,
) -> bool {
    let doomed = channels_of(pre.channels(), server_id);
    &&& r == owner_in(pre.servers(), server_id, user_id)
    &&& post.servers() == (if r {
        pre.servers().filter(server_other_than(server_id))
    } else {
        pre.servers()
    })
    &&& post.channels() == (if r {
        pre.channels().filter(channel_not_in(doomed))
    } else {
        pre.channels()
    })
    &&& post.messages() == (if r {
        pre.messages().filter(message_not_in(doomed))
    } else {
        pre.messages()
    })
}

/// What a role change does to the store.
pub open spec fn member_role_effect(
    pre: Store,
    post: Store,
    server_id: i64,
    user_id: i64,
    role: Seq<char>,
    owner_id: i64,
    r: Result<(), RoleError>,
) -> bool {
    let is_owner = owner_in(pre.servers(), server_id, owner_id);
    let known = role == "admin"@ || role == "membre"@;
    let promotes = role == "admin"@;
    let target_member = member_in(pre.servers(), server_id, user_id);
    &&& !is_owner ==> r == Err::<(), RoleError>(RoleError::PermissionDenied)
    &&& is_owner && !known ==> r == Err::<(), RoleError>(RoleError::InvalidInput)
    &&& is_owner && known ==> r is Ok
    &&& post.servers() == (if r is Ok {
        if promotes && !target_member {
            pre.servers()
        } else if promotes {
            edit_where_id(pre.servers(), server_id, ServerEdit::AddAdmin(user_id))
        } else {
            edit_where_id(pre.servers(), server_id, ServerEdit::PullAdmin(user_id))
        }
    } else {
        pre.servers()
    })
    &&& post.channels() == pre.channels()
    &&& post.messages() == pre.messages()
}

/// Why a kick was refused.
#[derive(Debug)]
pub enum KickError {
    /// The acting user is neither owner nor admin.
    NotPermitted,
    /// The owner cannot be kicked.
    TargetIsOwner,
    /// Only the owner kicks an admin.
    TargetIsAdmin,
}

/// Why leaving a server was refused.
#[derive(Debug)]
pub enum LeaveError {
    /// The owner must hand the server over first.
    OwnerCannotLeave,
}

/// Why joining a server by its id was refused.
#[derive(Debug)]
pub enum JoinError {
    /// No server has that id.
    NotFound,
    /// The user is a member already.
    AlreadyMember,
}

/// Filtering by a condition that holds of every element keeps everything.
pub proof fn lemma_filter_all<A>(s: Seq<A>, p: spec_fn(A) -> bool)
    requires
        forall|i: int| 0 <= i < s.len() ==> #[trigger] p(s[i]),
    ensures
        s.filter(p) == s,
    decreases s.len(),
{
    reveal(Seq::filter);
    if s.len() > 0 {
        let rest = s.drop_last();
        assert forall|i: int| 0 <= i < rest.len() implies #[trigger] p(rest[i]) by {
            assert(rest[i] == s[i]);
        }
        lemma_filter_all(rest, p);
        assert(p(s[s.len() - 1]));
        assert(rest.push(s.last()) =~= s);
    }
}

/// Filtering twice is filtering once by both conditions.
pub proof fn lemma_filter_twice<A>(s: Seq<A>, p: spec_fn(A) -> bool, q: spec_fn(A) -> bool, r: spec_fn(A) -> bool)
    requires
        forall|x: A| #[trigger] r(x) == (p(x) && q(x)),
    ensures
        s.filter(p).filter(q) == s.filter(r),
    decreases s.len(),
{
    reveal(Seq::filter);
    if s.len() > 0 {
        lemma_filter_twice(s.drop_last(), p, q, r);
        let fp = s.drop_last().filter(p);
        if p(s.last()) {
            fp.lemma_filter_push(s.last(), q);
        }
    }
}

impl Store {
    /// Creates a server owned by `owner_id`, whose only member is its owner,
    /// and returns its id: one more than the largest server id.
    pub fn set_server(&mut self, owner_id: i64, name: &str, image: Option<String>) -> (r: i64)
        requires
            old(self).wf(),
            max_id(server_ids(old(self).servers())) < i64::MAX,
        ensures
            final(self).wf(),
            r == max_id(server_ids(old(self).servers())) + 1,
            final(self).servers() == old(self).servers().push(
                new_server(r, name@, kept_image(image), owner_id),
            ),
            final(self).channels() == old(self).channels(),
            final(self).messages() == old(self).messages(),
    {
        let last = self.get_last_id(Collection::Server);
        let id = last + 1;
        let kept = match image {
            Some(img) => {
                let blank = is_blank(img.as_str());
                if blank {
                    None
                } else {
                    Some(img)
                }
            },
            None => None,
        };
        let mut members: Vec<i64> = Vec::new();
        members.push(owner_id);
        let s = Server {
            id,
            name: name.to_owned(),
            image: kept,
            owner_id,
            admin_ids: Vec::new(),
            member_ids: members,
            link: None,
        };
        let ghost pre = self.servers();
        self.servers.push(s);
        proof {
            let ids = server_ids(pre);
            assert(self.servers() =~= pre.push(s@));
            assert(s@.member_ids =~= seq![owner_id]);
            assert(s@.admin_ids =~= Seq::<i64>::empty());
            assert(s@ == new_server(id, name@, kept_image(image), owner_id));
            assert forall|k: int| 0 <= k < pre.len() implies #[trigger] pre[k].id < id by {
                assert(ids[k] == pre[k].id);
                crate::store::lemma_max_id_bounds(ids, k);
            }
            let post = self.servers();
            assert forall|a: int, b: int|
                0 <= a < post.len() && 0 <= b < post.len() && a != b implies #[trigger] post[a].id
                != #[trigger] post[b].id by {
                if a < pre.len() && b < pre.len() {
                    assert(post[a] == pre[a] && post[b] == pre[b]);
                } else if a < pre.len() {
                    assert(post[a] == pre[a]);
                } else {
                    assert(post[b] == pre[b]);
                }
            }
            assert forall|a: int, b: int|
                0 <= a < post.len() && 0 <= b < post.len() && a != b && #[trigger] post[a].link
                    is Some implies #[trigger] post[b].link != post[a].link by {
                if a < pre.len() && b < pre.len() {
                    assert(post[a] == pre[a] && post[b] == pre[b]);
                } else if a < pre.len() {
                    assert(post[a] == pre[a]);
                } else {
                    assert(post[b] == pre[b]);
                }
            }
        }
        id
    }

    /// Creates a channel in server `server_id` when `user_id` owns or
    /// administers it. Its id is one more than the largest channel id; its
    /// position is one more than the server's channel count.
    pub fn set_channel(&mut self, server_id: i64, name: &str, user_id: i64) -> (r: bool)
        requires
            old(self).wf(),
            max_id(channel_ids(old(self).channels())) < i64::MAX,
            old(self).channels().len() < i64::MAX,
        ensures
            final(self).wf(),
            r == manages(old(self).servers(), server_id, user_id),
            final(self).servers() == old(self).servers(),
            final(self).messages() == old(self).messages(),
            !r ==> final(self).channels() == old(self).channels(),
            r ==> final(self).channels().len() == old(self).channels().len() + 1,
            r ==> final(self).channels().drop_last() == old(self).channels(),
            r ==> {
                let c = final(self).channels().last();
                &&& c.id == max_id(channel_ids(old(self).channels())) + 1
                &&& c.server_id == server_id
                &&& c.name@ == name@
                &&& c.position == old(self).channels().filter(of_server(server_id)).len() + 1
            },
    {
        if !self.is_owner(server_id, user_id) && !self.is_admin(server_id, user_id) {
            return false;
        }
        let last = self.get_last_id(Collection::Channel);
        let count = self.get_channels_of_server(server_id).len();
        proof {
            self.channels@.lemma_filter_len(of_server(server_id));
        }
        let c = Channel {
            id: last + 1,
            server_id,
            name: name.to_owned(),
            position: count as i64 + 1,
        };
        let ghost pre = self.channels@;
        self.channels.push(c);
        proof {
            assert(self.channels@.drop_last() =~= pre);
            lemma_push_fresh_key(pre, crate::store::channel_key(), c);
        }
        true
    }

    /// Posts a message stamped with the current time; see `set_message_at`.
    pub fn set_message(&mut self, server_id: i64, channel_id: i64, message: &str, user_id: i64) -> (r:
        bool)
        requires
            old(self).wf(),
            max_id(message_ids(old(self).messages())) < i64::MAX,
        ensures
            final(self).wf(),
            r == (member_in(old(self).servers(), server_id, user_id) && channel_in(
                old(self).channels(),
                server_id,
                channel_id,
            )),
            final(self).servers() == old(self).servers(),
            final(self).channels() == old(self).channels(),
            !r ==> final(self).messages() == old(self).messages(),
            r ==> final(self).messages().len() == old(self).messages().len() + 1,
            r ==> final(self).messages().drop_last() == old(self).messages(),
            r ==> {
                let m = final(self).messages().last();
                &&& m.id == max_id(message_ids(old(self).messages())) + 1
                &&& m.channel_id == channel_id
                &&& m.content@ == message@
                &&& m.user == user_id
            },
    {
        let time = now_rfc3339();
        self.set_message_at(server_id, channel_id, message, user_id, time)
    }

    /// Posts `message` by `user_id` in channel `channel_id` of server
    /// `server_id`, at `time`, when the user is a member of the server and the
    /// channel belongs to it. Its id is one more than the largest message id.
    pub fn set_message_at(
        &mut self,
        server_id: i64,
        channel_id: i64,
        message: &str,
        user_id: i64,
        time: String,
    ) -> (r: bool)
        requires
            old(self).wf(),
            max_id(message_ids(old(self).messages())) < i64::MAX,
        ensures
            final(self).wf(),
            r == (member_in(old(self).servers(), server_id, user_id) && channel_in(
                old(self).channels(),
                server_id,
                channel_id,
            )),
            final(self).servers() == old(self).servers(),
            final(self).channels() == old(self).channels(),
            !r ==> final(self).messages() == old(self).messages(),
            r ==> final(self).messages().len() == old(self).messages().len() + 1,
            r ==> final(self).messages().drop_last() == old(self).messages(),
            r ==> {
                let m = final(self).messages().last();
                &&& m.id == max_id(message_ids(old(self).messages())) + 1
                &&& m.channel_id == channel_id
                &&& m.content@ == message@
                &&& m.user == user_id
                &&& m.time == time
            },
    {
        if !self.is_member(server_id, user_id) || !self.is_channel_of_server(server_id, channel_id) {
            return false;
        }
        let last = self.get_last_id(Collection::Message);
        let m = Message { id: last + 1, channel_id, content: message.to_owned(), user: user_id, time };
        let ghost pre = self.messages@;
        self.messages.push(m);
        proof {
            assert(self.messages@.drop_last() =~= pre);
            lemma_push_fresh_key(pre, crate::store::message_key(), m);
        }
        true
    }

    /// Adds `user_id` to the members of server `server_id`, unconditionally.
    pub fn add_member_to_server(&mut self, server_id: i64, user_id: i64)
        requires
            old(self).wf(),
        ensures
            final(self).wf(),
            final(self).servers() == edit_where_id(
                old(self).servers(),
                server_id,
                ServerEdit::AddMember(user_id),
            ),
            final(self).channels() == old(self).channels(),
            final(self).messages() == old(self).messages(),
    {
        self.edit_server(server_id, &ServerEdit::AddMember(user_id));
    }

    /// Makes member `user_to_add` an admin of server `server_id`, when
    /// `user_id` owns the server.
    pub fn add_admin_to_server(&mut self, server_id: i64, user_id: i64, user_to_add: i64) -> (r:
        bool)
        requires
            old(self).wf(),
        ensures
            final(self).wf(),
            r == (owner_in(old(self).servers(), server_id, user_id) && member_in(
                old(self).servers(),
                server_id,
                user_to_add,
            )),
            final(self).servers() == (if r {
                edit_where_id(old(self).servers(), server_id, ServerEdit::AddAdmin(user_to_add))
            } else {
                old(self).servers()
            }),
            final(self).channels() == old(self).channels(),
            final(self).messages() == old(self).messages(),
    {
        if !self.is_owner(server_id, user_id) || !self.is_member(server_id, user_to_add) {
            return false;
        }
        self.edit_server(server_id, &ServerEdit::AddAdmin(user_to_add));
        true
    }

    /// Hands server `server_id` over to `user_to_replace`, when `user_id` owns
    /// it. The former owner stays a member; the admin set is left as it is.
    pub fn switch_owner(&mut self, server_id: i64, user_id: i64, user_to_replace: i64) -> (r: bool)
        requires
            old(self).wf(),
        ensures
            final(self).wf(),
            switch_owner_effect(*old(self), *final(self), server_id, user_id, user_to_replace, r),
    {
        if !self.is_owner(server_id, user_id) {
            return false;
        }
        self.edit_server(server_id, &ServerEdit::SetOwner(user_to_replace));
        true
    }

    /// Installs `code` as the invite code of server `server_id`, replacing any
    /// earlier one, when `user_id` owns or administers the server and no
    /// server holds `code` yet.
    pub fn create_link_with_code(&mut self, server_id: i64, user_id: i64, code: &String) -> (r:
        InviteOutcome)
        requires
            old(self).wf(),
        ensures
            final(self).wf(),
            !manages(old(self).servers(), server_id, user_id) ==> r is Denied,
            manages(old(self).servers(), server_id, user_id) && link_in(old(self).servers(), code@)
                ==> r is Taken,
            manages(old(self).servers(), server_id, user_id) && !link_in(
                old(self).servers(),
                code@,
            ) ==> r is Issued,
            final(self).servers() == (if r is Issued {
                edit_where_id(old(self).servers(), server_id, ServerEdit::SetLink(*code))
            } else {
                old(self).servers()
            }),
            final(self).channels() == old(self).channels(),
            final(self).messages() == old(self).messages(),
    {
        if !self.is_owner(server_id, user_id) && !self.is_admin(server_id, user_id) {
            return InviteOutcome::Denied;
        }
        if self.verify_link_exist(code.as_str()) {
            return InviteOutcome::Taken;
        }
        self.edit_server(server_id, &ServerEdit::SetLink(code.clone()));
        InviteOutcome::Issued
    }

    /// Issues a fresh random invite code for server `server_id`, when
    /// `user_id` owns or administers it: codes are drawn until one is held by
    /// no server, and that code becomes the server's invite code. Success is
    /// certain when no server holds a well-formed code, for then the first
    /// draw is free.
    pub fn create_link_one_use(&mut self, server_id: i64, user_id: i64) -> (r: Result<
        String,
        InviteError,
    >)
        requires
            old(self).wf(),
        ensures
            final(self).wf(),
            !manages(old(self).servers(), server_id, user_id) <==> r == Err::<String, InviteError>(
                InviteError::Denied,
            ),
            manages(old(self).servers(), server_id, user_id) && no_code_held(old(self).servers())
                ==> r is Ok,
            match r {
                Ok(code) => {
                    &&& manages(old(self).servers(), server_id, user_id)
                    &&& is_invite_code(code@)
                    &&& !link_in(old(self).servers(), code@)
                    &&& final(self).servers() == edit_where_id(
                        old(self).servers(),
                        server_id,
                        ServerEdit::SetLink(code),
                    )
                },
                Err(_) => final(self).servers() == old(self).servers(),
            },
            final(self).channels() == old(self).channels(),
            final(self).messages() == old(self).messages(),
    {
        if !self.is_owner(server_id, user_id) && !self.is_admin(server_id, user_id) {
            return Err(InviteError::Denied);
        }
        let mut draws: u64 = INVITE_CODE_DRAWS;
        while draws > 0
            invariant
                self.wf(),
                self.servers() == old(self).servers(),
                self.channels() == old(self).channels(),
                self.messages() == old(self).messages(),
                manages(old(self).servers(), server_id, user_id),
                no_code_held(old(self).servers()) ==> draws == INVITE_CODE_DRAWS,
            decreases draws,
        {
            let code = random_string();
            match self.create_link_with_code(server_id, user_id, &code) {
                InviteOutcome::Issued => {
                    return Ok(code);
                },
                _ => {
                    proof {
                        if no_code_held(old(self).servers()) {
                            let i = choose|i: int|
                                0 <= i < old(self).servers().len() && #[trigger] old(
                                    self,
                                ).servers()[i].link == Some(code@);
                            assert(old(self).servers()[i].link == Some(code@));
                        }
                    }
                },
            }
            draws = draws - 1;
        }
        Err(InviteError::Exhausted)
    }

    /// Adds `user_id` to the members of the server holding invite code `link`;
    /// an unknown code changes nothing. The code stays valid.
    pub fn join_by_link(&mut self, link: &str, user_id: i64) -> (r: bool)
        requires
            old(self).wf(),
        ensures
            final(self).wf(),
            r == link_in(old(self).servers(), link@),
            final(self).servers() == (if r {
                edit_where_link(old(self).servers(), link@, ServerEdit::AddMember(user_id))
            } else {
                old(self).servers()
            }),
            final(self).channels() == old(self).channels(),
            final(self).messages() == old(self).messages(),
    {
        if !self.verify_link_exist(link) {
            return false;
        }
        let code = link.to_owned();
        self.edit_link_holders(&code, &ServerEdit::AddMember(user_id));
        true
    }

    /// Drops invite code `link` from the server that holds it.
    pub fn delete_link(&mut self, link: &str)
        requires
            old(self).wf(),
        ensures
            final(self).wf(),
            final(self).servers() == edit_where_link(old(self).servers(), link@, ServerEdit::ClearLink),
            final(self).channels() == old(self).channels(),
            final(self).messages() == old(self).messages(),
    {
        let code = link.to_owned();
        self.edit_link_holders(&code, &ServerEdit::ClearLink);
    }
    /// Deletes message `message_id` when `user_id` wrote it, or owns or
    /// administers the server the message lives in.
    pub fn delete_message(&mut self, message_id: i64, user_id: i64) -> (r: bool)
        requires
            old(self).wf(),
        ensures
            final(self).wf(),
            r == (manages(
                old(self).servers(),
                server_of_message(old(self).channels(), old(self).messages(), message_id),
                user_id,
            ) || authored_in(old(self).messages(), message_id, user_id)),
            final(self).servers() == old(self).servers(),
            final(self).channels() == old(self).channels(),
            final(self).messages() == (if r {
                old(self).messages().filter(message_other_than(message_id))
            } else {
                old(self).messages()
            }),
    {
        let server_id = self.get_server_id_by_message_id(message_id);
        let mut can_del = self.is_owner(server_id, user_id) || self.is_admin(server_id, user_id);
        let mut i: usize = 0;
        while i < self.messages.len()
            invariant
                i <= self.messages@.len(),
                can_del == (manages(self.servers(), server_id, user_id) || exists|j: int|
                    0 <= j < i && #[trigger] self.messages@[j].id == message_id
                        && self.messages@[j].user == user_id),
            decreases self.messages@.len() - i,
        {
            if self.messages[i].id == message_id && self.messages[i].user == user_id {
                can_del = true;
            }
            i = i + 1;
        }
        if !can_del {
            return false;
        }
        self.remove_message(message_id);
        true
    }

    /// Deletes channel `channel_id` with all its messages, when `user_id` owns
    /// or administers the channel's server.
    pub fn delete_channel(&mut self, channel_id: i64, user_id: i64) -> (r: bool)
        requires
            old(self).wf(),
        ensures
            final(self).wf(),
            r == manages(
                old(self).servers(),
                server_of_channel(old(self).channels(), channel_id),
                user_id,
            ),
            final(self).servers() == old(self).servers(),
            final(self).channels() == (if r {
                old(self).channels().filter(crate::store::channel_other_than(channel_id))
            } else {
                old(self).channels()
            }),
            final(self).messages() == (if r {
                old(self).messages().filter(crate::store::message_outside(channel_id))
            } else {
                old(self).messages()
            }),
    {
        let server_id = self.get_server_id_by_channel_id(channel_id);
        if !self.is_owner(server_id, user_id) && !self.is_admin(server_id, user_id) {
            return false;
        }
        self.purge_channel(channel_id);
        true
    }

    /// Deletes server `server_id` when `user_id` owns it: first every channel
    /// of the server with its messages, then the server record.
    pub fn delete_server(&mut self, server_id: i64, user_id: i64) -> (r: bool)
        requires
            old(self).wf(),
        ensures
            final(self).wf(),
            delete_server_effect(*old(self), *final(self), server_id, user_id, r),
    {
        if !self.is_owner(server_id, user_id) {
            return false;
        }
        let doomed = self.get_channels_of_server(server_id);
        let ghost ids = channel_ids(doomed@);
        let ghost c0 = self.channels();
        let ghost m0 = self.messages();
        let mut k: usize = 0;
        proof {
            assert(c0.filter(channel_not_in(ids.subrange(0, 0))) =~= c0) by {
                lemma_filter_all(c0, channel_not_in(ids.subrange(0, 0)));
            }
            assert(m0.filter(message_not_in(ids.subrange(0, 0))) =~= m0) by {
                lemma_filter_all(m0, message_not_in(ids.subrange(0, 0)));
            }
        }
        while k < doomed.len()
            invariant
                k <= doomed@.len(),
                ids == channel_ids(doomed@),
                self.wf(),
                self.servers() == old(self).servers(),
                self.channels() == c0.filter(channel_not_in(ids.subrange(0, k as int))),
                self.messages() == m0.filter(message_not_in(ids.subrange(0, k as int))),
            decreases doomed@.len() - k,
        {
            let cid = doomed[k].id;
            let ghost before = ids.subrange(0, k as int);
            let ghost after = ids.subrange(0, k as int + 1);
            proof {
                assert(after =~= before.push(cid));
                assert forall|c: Channel| #[trigger] channel_not_in(after)(c) == (channel_not_in(
                    before,
                )(c) && crate::store::channel_other_than(cid)(c)) by {
                    lemma_push_contains(before, cid, c.id);
                }
                assert forall|m: Message| #[trigger] message_not_in(after)(m) == (message_not_in(
                    before,
                )(m) && crate::store::message_outside(cid)(m)) by {
                    lemma_push_contains(before, cid, m.channel_id);
                }
                lemma_filter_twice(
                    c0,
                    channel_not_in(before),
                    crate::store::channel_other_than(cid),
                    channel_not_in(after),
                );
                lemma_filter_twice(
                    m0,
                    message_not_in(before),
                    crate::store::message_outside(cid),
                    message_not_in(after),
                );
            }
            self.purge_channel(cid);
            k = k + 1;
        }
        proof {
            assert(ids.subrange(0, k as int) =~= ids);
        }
        self.remove_server(server_id);
        true
    }

    /// Takes `user_to_remove` out of the admins of server `server_id`, when
    /// `user_id` owns the server.
    pub fn delete_admin(&mut self, server_id: i64, user_id: i64, user_to_remove: i64) -> (r: bool)
        requires
            old(self).wf(),
        ensures
            final(self).wf(),
            r == owner_in(old(self).servers(), server_id, user_id),
            final(self).servers() == (if r {
                edit_where_id(old(self).servers(), server_id, ServerEdit::PullAdmin(user_to_remove))
            } else {
                old(self).servers()
            }),
            final(self).channels() == old(self).channels(),
            final(self).messages() == old(self).messages(),
    {
        if !self.is_owner(server_id, user_id) {
            return false;
        }
        self.edit_server(server_id, &ServerEdit::PullAdmin(user_to_remove));
        true
    }

    /// Removes `user_to_remove` from the members and admins of server
    /// `server_id`, as far as `may_remove` lets `user_id` do so.
    pub fn delete_member(&mut self, server_id: i64, user_id: i64, user_to_remove: i64) -> (r: bool)
        requires
            old(self).wf(),
        ensures
            final(self).wf(),
            r == may_remove(old(self).servers(), server_id, user_id, user_to_remove),
            final(self).servers() == (if r {
                edit_where_id(old(self).servers(), server_id, ServerEdit::PullMember(user_to_remove))
            } else {
                old(self).servers()
            }),
            final(self).channels() == old(self).channels(),
            final(self).messages() == old(self).messages(),
    {
        if self.is_admin(server_id, user_id) && !self.is_owner(server_id, user_id) && self.is_admin(
            server_id,
            user_to_remove,
        ) && user_id != user_to_remove {
            return false;
        }
        if self.is_owner(server_id, user_to_remove) {
            return false;
        }
        if !self.is_owner(server_id, user_id) && !self.is_admin(server_id, user_id) && user_id
            != user_to_remove {
            return false;
        }
        self.edit_server(server_id, &ServerEdit::PullMember(user_to_remove));
        true
    }

    /// Replaces the text of message `message_id` when `user_id` wrote it.
    pub fn update_message(&mut self, message_id: i64, message: &str, user_id: i64) -> (r: bool)
        requires
            old(self).wf(),
        ensures
            final(self).wf(),
            r == authored_in(old(self).messages(), message_id, user_id),
            final(self).servers() == old(self).servers(),
            final(self).channels() == old(self).channels(),
            final(self).messages().len() == old(self).messages().len(),
            forall|i: int|
                0 <= i < old(self).messages().len() ==> if r && old(self).messages()[i].id
                    == message_id {
                    reworded(old(self).messages()[i], #[trigger] final(self).messages()[i], message@)
                } else {
                    final(self).messages()[i] == old(self).messages()[i]
                },
    {
        let mut can_modify = false;
        let mut i: usize = 0;
        while i < self.messages.len()
            invariant
                i <= self.messages@.len(),
                can_modify == exists|j: int|
                    0 <= j < i && #[trigger] self.messages@[j].id == message_id
                        && self.messages@[j].user == user_id,
            decreases self.messages@.len() - i,
        {
            if self.messages[i].id == message_id && self.messages[i].user == user_id {
                can_modify = true;
            }
            i = i + 1;
        }
        if !can_modify {
            return false;
        }
        let ghost pre = self.messages@;
        let mut i: usize = 0;
        while i < self.messages.len()
            invariant
                i <= self.messages@.len(),
                self.messages@.len() == pre.len(),
                self.wf(),
                self.servers() == old(self).servers(),
                self.channels() == old(self).channels(),
                pre == old(self).messages(),
                forall|j: int|
                    0 <= j < i ==> if pre[j].id == message_id {
                        reworded(pre[j], #[trigger] self.messages@[j], message@)
                    } else {
                        self.messages@[j] == pre[j]
                    },
                forall|j: int| i <= j < pre.len() ==> #[trigger] self.messages@[j] == pre[j],
            decreases self.messages@.len() - i,
        {
            if self.messages[i].id == message_id {
                let m = Message {
                    id: self.messages[i].id,
                    channel_id: self.messages[i].channel_id,
                    content: message.to_owned(),
                    user: self.messages[i].user,
                    time: self.messages[i].time.clone(),
                };
                self.messages.set(i, m);
            }
            i = i + 1;
        }
        true
    }

    /// Renames channel `channel_id` when the channel is known and `user_id`
    /// owns or administers its server.
    pub fn update_channel_name(&mut self, channel_id: i64, name: &str, user_id: i64) -> (r: bool)
        requires
            old(self).wf(),
        ensures
            final(self).wf(),
            rename_channel_effect(*old(self), *final(self), channel_id, name@, user_id, r),
    {
        let server_id = self.get_server_id_by_channel_id(channel_id);
        if server_id == 0 {
            return false;
        }
        if !self.is_owner(server_id, user_id) && !self.is_admin(server_id, user_id) {
            return false;
        }
        let ghost pre = self.channels@;
        let mut i: usize = 0;
        while i < self.channels.len()
            invariant
                i <= self.channels@.len(),
                self.channels@.len() == pre.len(),
                self.wf(),
                self.servers() == old(self).servers(),
                self.messages() == old(self).messages(),
                pre == old(self).channels(),
                forall|j: int|
                    0 <= j < i ==> if pre[j].id == channel_id {
                        channel_renamed(pre[j], #[trigger] self.channels@[j], name@)
                    } else {
                        self.channels@[j] == pre[j]
                    },
                forall|j: int| i <= j < pre.len() ==> #[trigger] self.channels@[j] == pre[j],
            decreases self.channels@.len() - i,
        {
            if self.channels[i].id == channel_id {
                let c = Channel {
                    id: self.channels[i].id,
                    server_id: self.channels[i].server_id,
                    name: name.to_owned(),
                    position: self.channels[i].position,
                };
                self.channels.set(i, c);
            }
            i = i + 1;
        }
        true
    }

    /// Renames server `server_id` when `user_id` owns or administers it.
    pub fn update_server_name(&mut self, server_id: i64, name: &str, user_id: i64) -> (r: bool)
        requires
            old(self).wf(),
        ensures
            final(self).wf(),
            r == manages(old(self).servers(), server_id, user_id),
            final(self).servers() == (if r {
                updated_servers(old(self).servers(), server_id, Some(name@), None)
            } else {
                old(self).servers()
            }),
            final(self).channels() == old(self).channels(),
            final(self).messages() == old(self).messages(),
    {
        if !self.is_owner(server_id, user_id) && !self.is_admin(server_id, user_id) {
            return false;
        }
        let ghost pre = self.servers();
        self.edit_server(server_id, &ServerEdit::SetName(name.to_owned()));
        proof {
            assert(self.servers() =~= updated_servers(pre, server_id, Some(name@), None));
        }
        true
    }

    /// Gives server `server_id` a new name (unless blank) and a new image
    /// (possibly empty), where given, when `user_id` owns or administers it.
    /// Nothing is written, and `false` returned, when neither applies.
    pub fn update_server(
        &mut self,
        server_id: i64,
        name: Option<&str>,
        image: Option<&str>,
        user_id: i64,
    ) -> (r: bool)
        requires
            old(self).wf(),
        ensures
            final(self).wf(),
            r == (manages(old(self).servers(), server_id, user_id) && (applied_name(name) is Some
                || image is Some)),
            final(self).servers() == (if r {
                updated_servers(old(self).servers(), server_id, applied_name(name), opt_str(image))
            } else {
                old(self).servers()
            }),
            final(self).channels() == old(self).channels(),
            final(self).messages() == old(self).messages(),
    {
        if !self.is_owner(server_id, user_id) && !self.is_admin(server_id, user_id) {
            return false;
        }
        let new_name: Option<&str> = match name {
            Some(n) => if is_blank(n) {
                None
            } else {
                Some(n)
            },
            None => None,
        };
        if new_name.is_none() && image.is_none() {
            return false;
        }
        let ghost pre = self.servers();
        match new_name {
            Some(n) => self.edit_server(server_id, &ServerEdit::SetName(n.to_owned())),
            None => {},
        }
        let ghost mid = self.servers();
        proof {
            assert(mid =~= updated_servers(pre, server_id, opt_str(new_name), None));
        }
        match image {
            Some(img) => self.edit_server(server_id, &ServerEdit::SetImage(img.to_owned())),
            None => {},
        }
        proof {
            assert(self.servers() =~= updated_servers(
                pre,
                server_id,
                applied_name(name),
                opt_str(image),
            ));
        }
        true
    }

    /// Sets the role of `user_id` in server `server_id` on behalf of
    /// `owner_id`: `admin` adds a member to the admin set (a user who is not a
    /// member is left as it is), `membre` takes the user out of it.
    pub fn update_member_role(&mut self, server_id: i64, user_id: i64, role: &str, owner_id: i64) -> (r:
        Result<(), RoleError>)
        requires
            old(self).wf(),
        ensures
            final(self).wf(),
            member_role_effect(*old(self), *final(self), server_id, user_id, role@, owner_id, r),
    {
        if !self.is_owner(server_id, owner_id) {
            return Err(RoleError::PermissionDenied);
        }
        if same_text(role, "admin") {
            if self.is_member(server_id, user_id) {
                self.edit_server(server_id, &ServerEdit::AddAdmin(user_id));
            }
            Ok(())
        } else if same_text(role, "membre") {
            self.edit_server(server_id, &ServerEdit::PullAdmin(user_id));
            Ok(())
        } else {
            Err(RoleError::InvalidInput)
        }
    }

    /// `user_id` excludes `target_id` from server `server_id`: only an owner or
    /// an admin kicks, nobody kicks the owner, and only the owner kicks an
    /// admin. Otherwise the removal goes as in `delete_member`, whose result
    /// is returned.
    pub fn kick_member(&mut self, server_id: i64, user_id: i64, target_id: i64) -> (r: Result<
        bool,
        KickError,
    >)
        requires
            old(self).wf(),
        ensures
            final(self).wf(),
            !manages(old(self).servers(), server_id, user_id) ==> r == Err::<bool, KickError>(
                KickError::NotPermitted,
            ),
            manages(old(self).servers(), server_id, user_id) && owner_in(
                old(self).servers(),
                server_id,
                target_id,
            ) ==> r == Err::<bool, KickError>(KickError::TargetIsOwner),
            manages(old(self).servers(), server_id, user_id) && !owner_in(
                old(self).servers(),
                server_id,
                target_id,
            ) && !owner_in(old(self).servers(), server_id, user_id) && admin_in(
                old(self).servers(),
                server_id,
                target_id,
            ) ==> r == Err::<bool, KickError>(KickError::TargetIsAdmin),
            manages(old(self).servers(), server_id, user_id) && !owner_in(
                old(self).servers(),
                server_id,
                target_id,
            ) && !(!owner_in(old(self).servers(), server_id, user_id) && admin_in(
                old(self).servers(),
                server_id,
                target_id,
            )) ==> r is Ok,
            r is Ok ==> r == Ok::<bool, KickError>(
                may_remove(old(self).servers(), server_id, user_id, target_id),
            ),
            final(self).servers() == (if r == Ok::<bool, KickError>(true) {
                edit_where_id(old(self).servers(), server_id, ServerEdit::PullMember(target_id))
            } else {
                old(self).servers()
            }),
            final(self).channels() == old(self).channels(),
            final(self).messages() == old(self).messages(),
    {
        let is_owner = self.is_owner(server_id, user_id);
        let is_admin = self.is_admin(server_id, user_id);
        if !is_owner && !is_admin {
            return Err(KickError::NotPermitted);
        }
        if self.is_owner(server_id, target_id) {
            return Err(KickError::TargetIsOwner);
        }
        if !is_owner && is_admin && self.is_admin(server_id, target_id) {
            return Err(KickError::TargetIsAdmin);
        }
        Ok(self.delete_member(server_id, user_id, target_id))
    }

    /// `user_id` leaves server `server_id`; the owner may not. Otherwise the
    /// removal goes as in `delete_member`, whose result is returned.
    pub fn leave_server(&mut self, server_id: i64, user_id: i64) -> (r: Result<bool, LeaveError>)
        requires
            old(self).wf(),
        ensures
            final(self).wf(),
            owner_in(old(self).servers(), server_id, user_id) ==> r == Err::<bool, LeaveError>(
                LeaveError::OwnerCannotLeave,
            ),
            !owner_in(old(self).servers(), server_id, user_id) ==> r == Ok::<bool, LeaveError>(
                may_remove(old(self).servers(), server_id, user_id, user_id),
            ),
            final(self).servers() == (if r == Ok::<bool, LeaveError>(true) {
                edit_where_id(old(self).servers(), server_id, ServerEdit::PullMember(user_id))
            } else {
                old(self).servers()
            }),
            final(self).channels() == old(self).channels(),
            final(self).messages() == old(self).messages(),
    {
        if self.is_owner(server_id, user_id) {
            return Err(LeaveError::OwnerCannotLeave);
        }
        Ok(self.delete_member(server_id, user_id, user_id))
    }

    /// `user_id` joins server `server_id` directly, when the server exists and
    /// the user is not a member yet.
    pub fn join_server(&mut self, server_id: i64, user_id: i64) -> (r: Result<(), JoinError>)
        requires
            old(self).wf(),
        ensures
            final(self).wf(),
            find_server(old(self).servers(), server_id) is None ==> r == Err::<(), JoinError>(
                JoinError::NotFound,
            ),
            find_server(old(self).servers(), server_id) is Some && member_in(
                old(self).servers(),
                server_id,
                user_id,
            ) ==> r == Err::<(), JoinError>(JoinError::AlreadyMember),
            find_server(old(self).servers(), server_id) is Some && !member_in(
                old(self).servers(),
                server_id,
                user_id,
            ) ==> r is Ok,
            final(self).servers() == (if r is Ok {
                edit_where_id(old(self).servers(), server_id, ServerEdit::AddMember(user_id))
            } else {
                old(self).servers()
            }),
            final(self).channels() == old(self).channels(),
            final(self).messages() == old(self).messages(),
    {
        if self.get_server(server_id).is_none() {
            return Err(JoinError::NotFound);
        }
        if self.is_member(server_id, user_id) {
            return Err(JoinError::AlreadyMember);
        }
        self.add_member_to_server(server_id, user_id);
        Ok(())
    }
}

/// Whether `role` names a role a member can be given: `admin` or `membre`.
pub fn is_known_role(role: &str) -> (r: bool)
    ensures
        r == (role@ == "admin"@ || role@ == "membre"@),
{
    same_text(role, "admin") || same_text(role, "membre")
}

/// The invite code spelled by drawn bytes: one character per byte.
pub fn code_from_draws(draws: &Vec<u8>) -> (r: String)
    ensures
        r@ == draws@.map_values(|b: u8| b as char),
{
    let mut code = String::new();
    let mut i: usize = 0;
    while i < draws.len()
        invariant
            i <= draws@.len(),
            code@ == draws@.subrange(0, i as int).map_values(|b: u8| b as char),
        decreases draws@.len() - i,
    {
        proof {
            assert(draws@.subrange(0, i as int + 1).map_values(|b: u8| b as char) =~= draws@.subrange(
                0,
                i as int,
            ).map_values(|b: u8| b as char).push(draws@[i as int] as char));
        }
        push_char(&mut code, draws[i] as char);
        i = i + 1;
    }
    proof {
        assert(draws@.subrange(0, i as int) =~= draws@);
    }
    code
}

/// A random invite code: `INVITE_CODE_LEN` ASCII letters and digits.
pub fn random_string() -> (r: String)
    ensures
        is_invite_code(r@),
{
    let mut draws: Vec<u8> = Vec::new();
    while draws.len() < INVITE_CODE_LEN
        invariant
            draws@.len() <= INVITE_CODE_LEN,
            forall|j: int| 0 <= j < draws@.len() ==> is_alphanumeric_byte(#[trigger] draws@[j]),
        decreases INVITE_CODE_LEN - draws@.len(),
    {
        draws.push(random_alphanumeric());
    }
    let code = code_from_draws(&draws);
    proof {
        assert forall|j: int| 0 <= j < code@.len() implies is_alphanumeric_byte(
            #[trigger] code@[j] as u8,
        ) && (code@[j] as u32) < 0x80 by {
            let b = draws@[j];
            assert(code@[j] == b as char);
            assert(is_alphanumeric_byte(b));
            assert((b as char) as u8 == b);
        }
    }
    code
}

/// Deleting one message of a channel lowers the channel's message count by
/// exactly one: message ids are unique.
pub proof fn lemma_delete_message_drops_one(pre: Store, post: Store, k: int)
    requires
        pre.wf(),
        0 <= k < pre.messages().len(),
        post.messages() == pre.messages().filter(message_other_than(pre.messages()[k].id)),
    ensures
        post.messages().filter(of_channel(pre.messages()[k].channel_id)).len() + 1 == pre.messages().filter(
            of_channel(pre.messages()[k].channel_id),
        ).len(),
{
    lemma_filter_out_one(pre.messages(), k);
}

/// Filtering out the message at `k` by its unique id removes one message from
/// its channel.
proof fn lemma_filter_out_one(msgs: Seq<Message>, k: int)
    requires
        crate::store::unique_keys(msgs, crate::store::message_key()),
        0 <= k < msgs.len(),
    ensures
        msgs.filter(message_other_than(msgs[k].id)).filter(of_channel(msgs[k].channel_id)).len() + 1
            == msgs.filter(of_channel(msgs[k].channel_id)).len(),
    decreases msgs.len(),
{
    let mid = msgs[k].id;
    let cid = msgs[k].channel_id;
    let other = message_other_than(mid);
    let ofc = of_channel(cid);
    let rest = msgs.drop_last();
    let x = msgs.last();
    assert(msgs =~= rest.push(x));
    assert(crate::store::unique_keys(rest, crate::store::message_key())) by {
        assert forall|i: int, j: int|
            0 <= i < rest.len() && 0 <= j < rest.len() && i != j implies crate::store::message_key()(
            #[trigger] rest[i],
        ) != crate::store::message_key()(#[trigger] rest[j]) by {
            assert(rest[i] == msgs[i] && rest[j] == msgs[j]);
        }
    }
    rest.lemma_filter_push(x, other);
    rest.lemma_filter_push(x, ofc);
    if k == msgs.len() - 1 {
        assert forall|i: int| 0 <= i < rest.len() implies #[trigger] other(rest[i]) by {
            assert(rest[i] == msgs[i]);
            assert(crate::store::message_key()(msgs[i]) != crate::store::message_key()(msgs[k]));
        }
        lemma_filter_all(rest, other);
    } else {
        assert(rest[k] == msgs[k]);
        lemma_filter_out_one(rest, k);
        assert(crate::store::message_key()(msgs[msgs.len() - 1]) != crate::store::message_key()(
            msgs[k],
        ));
        rest.filter(other).lemma_filter_push(x, ofc);
    }
}

} // verus!
