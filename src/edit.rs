//! The store's write primitives: update of a server record in place, and
//! deletion by filter. The store's operations are built from these.
use crate::model::{add_id, add_to_set, pull, pull_id, Channel, Message, Server, ServerView};
use crate::store::{
    channel_other_than, message_other_than, message_outside,
    server_other_than, server_view, well_formed, Store,
};
use vstd::prelude::*;

verus! {

broadcast use crate::store::group_store_views;

/// One update of a server record.
pub enum ServerEdit {
    /// Add to the member set.
    AddMember(i64),
    /// Add to the admin set.
    AddAdmin(i64),
    /// Pull from the admin set.
    PullAdmin(i64),
    /// Pull from both the admin and the member set.
    PullMember(i64),
    /// Replace the owner.
    SetOwner(i64),
    /// Store an invite code.
    SetLink(String),
    /// Drop the invite code.
    ClearLink,
    /// Rename.
    SetName(String),
    /// Replace the image.
    SetImage(String),
}

/// The server record after `e`.
pub open spec fn edited(v: ServerView, e: ServerEdit) -> ServerView {
    match e {
        ServerEdit::AddMember(u) => ServerView { member_ids: add_to_set(v.member_ids, u), ..v },
        ServerEdit::AddAdmin(u) => ServerView { admin_ids: add_to_set(v.admin_ids, u), ..v },
        ServerEdit::PullAdmin(u) => ServerView { admin_ids: pull(v.admin_ids, u), ..v },
        ServerEdit::PullMember(u) => ServerView {
            admin_ids: pull(v.admin_ids, u),
            member_ids: pull(v.member_ids, u),
            ..v
        },
        ServerEdit::SetOwner(u) => ServerView { owner_id: u, ..v },
        ServerEdit::SetLink(code) => ServerView { link: Some(code@), ..v },
        ServerEdit::ClearLink => ServerView { link: None, ..v },
        ServerEdit::SetName(n) => ServerView { name: n@, ..v },
        ServerEdit::SetImage(img) => ServerView { image: Some(img@), ..v },
    }
}

/// The servers after `e` is applied to every server with id `sid`.
pub open spec fn edit_where_id(servers: Seq<ServerView>, sid: i64, e: ServerEdit) -> Seq<ServerView> {
    servers.map_values(|v: ServerView| if v.id == sid { edited(v, e) } else { v })
}

/// The servers after `e` is applied to every server holding invite code `code`.
pub open spec fn edit_where_link(servers: Seq<ServerView>, code: Seq<char>, e: ServerEdit) -> Seq<
    ServerView,
> {
    servers.map_values(|v: ServerView| if v.link == Some(code) { edited(v, e) } else { v })
}

/// Filtering keeps server ids and invite codes unique.
pub proof fn lemma_filter_keeps_unique(servers: Seq<ServerView>, p: spec_fn(ServerView) -> bool)
    requires
        well_formed(servers),
    ensures
        well_formed(servers.filter(p)),
    decreases servers.len(),
{
    reveal(Seq::filter);
    if servers.len() > 0 {
        let rest = servers.drop_last();
        assert(well_formed(rest));
        lemma_filter_keeps_unique(rest, p);
        if p(servers.last()) {
            let f = rest.filter(p);
            let last = servers.last();
            assert forall|i: int| 0 <= i < f.len() implies f[i].id != last.id && (last.link is Some
                ==> f[i].link != last.link) && (f[i].link is Some ==> f[i].link != last.link) by {
                assert(f.contains(f[i]));
                rest.lemma_filter_contains_rev(p, f[i]);
                let k = choose|k: int| 0 <= k < rest.len() && rest[k] == f[i];
                assert(servers[k] == rest[k]);
                assert(servers[servers.len() - 1] == last);
            }
            let g = f.push(last);
            assert(servers.filter(p) == g);
            assert forall|a: int, b: int|
                0 <= a < g.len() && 0 <= b < g.len() && a != b && #[trigger] g[a].link is Some
                    implies #[trigger] g[b].link != g[a].link by {
                if a < f.len() && b < f.len() {
                    assert(g[a] == f[a] && g[b] == f[b]);
                } else if a < f.len() {
                    assert(g[a] == f[a]);
                } else {
                    assert(g[b] == f[b]);
                }
            }
            assert forall|a: int, b: int|
                0 <= a < g.len() && 0 <= b < g.len() && a != b implies #[trigger] g[a].id
                != #[trigger] g[b].id by {
                if a < f.len() && b < f.len() {
                    assert(g[a] == f[a] && g[b] == f[b]);
                } else if a < f.len() {
                    assert(g[a] == f[a]);
                } else {
                    assert(g[b] == f[b]);
                }
            }
        }
    }
}

/// A placeholder record, used while a record is taken out for an update.
fn blank_server() -> (r: Server) {
    Server {
        id: 0,
        name: String::new(),
        image: None,
        owner_id: 0,
        admin_ids: Vec::new(),
        member_ids: Vec::new(),
        link: None,
    }
}

/// Applies `e` to one record.
fn apply_edit(s: &mut Server, e: &ServerEdit)
    ensures
        final(s)@ == edited(old(s)@, *e),
{
    match e {
        ServerEdit::AddMember(u) => add_id(&mut s.member_ids, *u),
        ServerEdit::AddAdmin(u) => add_id(&mut s.admin_ids, *u),
        ServerEdit::PullAdmin(u) => pull_id(&mut s.admin_ids, *u),
        ServerEdit::PullMember(u) => {
            pull_id(&mut s.admin_ids, *u);
            pull_id(&mut s.member_ids, *u);
        },
        ServerEdit::SetOwner(u) => s.owner_id = *u,
        ServerEdit::SetLink(code) => s.link = Some(code.clone()),
        ServerEdit::ClearLink => s.link = None,
        ServerEdit::SetName(n) => s.name = n.clone(),
        ServerEdit::SetImage(img) => s.image = Some(img.clone()),
    }
}

impl Store {
    /// Applies `e` to the record at index `i`.
    fn edit_at(&mut self, i: usize, e: &ServerEdit)
        requires
            i < old(self).servers@.len(),
        ensures
            final(self).servers@.len() == old(self).servers@.len(),
            final(self).servers() == old(self).servers().update(
                i as int,
                edited(old(self).servers()[i as int], *e),
            ),
            final(self).channels() == old(self).channels(),
            final(self).messages() == old(self).messages(),
    {
        let mut s = blank_server();
        self.servers.set_and_swap(i, &mut s);
        apply_edit(&mut s, e);
        self.servers.set(i, s);
        proof {
            assert(self.servers() =~= old(self).servers().update(
                i as int,
                edited(old(self).servers()[i as int], *e),
            ));
        }
    }

    /// Applies `e` to every server with id `sid`; ids are left as they were.
    pub(crate) fn edit_server(&mut self, sid: i64, e: &ServerEdit)
        requires
            old(self).wf(),
            e matches ServerEdit::SetLink(code) ==> !crate::store::link_in(old(self).servers(), code@),
        ensures
            final(self).wf(),
            final(self).servers() == edit_where_id(old(self).servers(), sid, *e),
            final(self).channels() == old(self).channels(),
            final(self).messages() == old(self).messages(),
    {
        let ghost pre = self.servers();
        let ghost target = edit_where_id(pre, sid, *e);
        let mut i: usize = 0;
        while i < self.servers.len()
            invariant
                i <= self.servers@.len(),
                self.servers@.len() == pre.len(),
                target == edit_where_id(pre, sid, *e),
                forall|j: int| 0 <= j < i ==> #[trigger] self.servers()[j] == target[j],
                forall|j: int| i <= j < pre.len() ==> #[trigger] self.servers()[j] == pre[j],
                self.channels() == old(self).channels(),
                self.messages() == old(self).messages(),
            decreases self.servers@.len() - i,
        {
            assert(self.servers()[i as int] == self.servers@[i as int]@);
            if self.servers[i].id == sid {
                self.edit_at(i, e);
            }
            i = i + 1;
        }
        proof {
            assert(self.servers() =~= target);
            assert forall|a: int, b: int|
                0 <= a < target.len() && 0 <= b < target.len() && a != b implies #[trigger] target[a].id
                != #[trigger] target[b].id by {
                assert(target[a].id == pre[a].id);
                assert(target[b].id == pre[b].id);
            }
            assert forall|a: int, b: int|
                0 <= a < target.len() && 0 <= b < target.len() && a != b && #[trigger] target[a].link
                    is Some implies #[trigger] target[b].link != target[a].link by {
                if pre[a].id == sid && pre[b].id == sid {
                    assert(pre[a].id == pre[b].id);
                }
                if let ServerEdit::SetLink(code) = *e {
                    if pre[a].id == sid {
                        assert(!(pre[b].link == Some(code@)));
                    } else if pre[b].id == sid {
                        assert(!(pre[a].link == Some(code@)));
                    }
                }
            }
        }
    }

    /// Applies `e` to every server holding invite code `code`.
    pub(crate) fn edit_link_holders(&mut self, code: &String, e: &ServerEdit)
        requires
            old(self).wf(),
            !(e is SetLink),
        ensures
            final(self).wf(),
            final(self).servers() == edit_where_link(old(self).servers(), code@, *e),
            final(self).channels() == old(self).channels(),
            final(self).messages() == old(self).messages(),
    {
        let ghost pre = self.servers();
        let ghost target = edit_where_link(pre, code@, *e);
        let mut i: usize = 0;
        while i < self.servers.len()
            invariant
                i <= self.servers@.len(),
                self.servers@.len() == pre.len(),
                target == edit_where_link(pre, code@, *e),
                forall|j: int| 0 <= j < i ==> #[trigger] self.servers()[j] == target[j],
                forall|j: int| i <= j < pre.len() ==> #[trigger] self.servers()[j] == pre[j],
                self.channels() == old(self).channels(),
                self.messages() == old(self).messages(),
            decreases self.servers@.len() - i,
        {
            assert(self.servers()[i as int] == self.servers@[i as int]@);
            let holds = match &self.servers[i].link {
                Some(l) => *l == *code,
                None => false,
            };
            if holds {
                self.edit_at(i, e);
            }
            i = i + 1;
        }
        proof {
            assert(self.servers() =~= target);
            assert forall|a: int, b: int|
                0 <= a < target.len() && 0 <= b < target.len() && a != b implies #[trigger] target[a].id
                != #[trigger] target[b].id by {
                assert(target[a].id == pre[a].id);
                assert(target[b].id == pre[b].id);
            }
            assert forall|a: int, b: int|
                0 <= a < target.len() && 0 <= b < target.len() && a != b && #[trigger] target[a].link
                    is Some implies #[trigger] target[b].link != target[a].link by {
                assert(target[a].link == pre[a].link || target[a].link is None);
                assert(target[b].link == pre[b].link || target[b].link is None);
            }
        }
    }

    /// Deletes every message of channel `cid`, then the channel itself.
    pub(crate) fn purge_channel(&mut self, cid: i64)
        requires
            old(self).wf(),
        ensures
            final(self).wf(),
            final(self).servers() == old(self).servers(),
            final(self).channels() == old(self).channels().filter(channel_other_than(cid)),
            final(self).messages() == old(self).messages().filter(message_outside(cid)),
    {
        let mut kept_m: Vec<Message> = Vec::new();
        let mut i: usize = 0;
        while i < self.messages.len()
            invariant
                i <= self.messages@.len(),
                kept_m@ == self.messages@.subrange(0, i as int).filter(message_outside(cid)),
            decreases self.messages@.len() - i,
        {
            let m = self.messages[i].duplicate();
            proof {
                let pre = self.messages@.subrange(0, i as int);
                assert(self.messages@.subrange(0, i as int + 1) =~= pre.push(m));
                pre.lemma_filter_push(m, message_outside(cid));
            }
            if m.channel_id != cid {
                kept_m.push(m);
            }
            i = i + 1;
        }
        proof {
            assert(self.messages@.subrange(0, i as int) =~= self.messages@);
        }
        let mut kept_c: Vec<Channel> = Vec::new();
        let mut i: usize = 0;
        while i < self.channels.len()
            invariant
                i <= self.channels@.len(),
                kept_c@ == self.channels@.subrange(0, i as int).filter(channel_other_than(cid)),
            decreases self.channels@.len() - i,
        {
            let c = self.channels[i].duplicate();
            proof {
                let pre = self.channels@.subrange(0, i as int);
                assert(self.channels@.subrange(0, i as int + 1) =~= pre.push(c));
                pre.lemma_filter_push(c, channel_other_than(cid));
            }
            if c.id != cid {
                kept_c.push(c);
            }
            i = i + 1;
        }
        proof {
            assert(self.channels@.subrange(0, i as int) =~= self.channels@);
        }
        proof {
            crate::store::lemma_filter_keeps_keys(
                self.messages@,
                crate::store::message_key(),
                message_outside(cid),
            );
            crate::store::lemma_filter_keeps_keys(
                self.channels@,
                crate::store::channel_key(),
                channel_other_than(cid),
            );
        }
        self.messages = kept_m;
        self.channels = kept_c;
    }

    /// Deletes message `mid`.
    pub(crate) fn remove_message(&mut self, mid: i64)
        requires
            old(self).wf(),
        ensures
            final(self).wf(),
            final(self).servers() == old(self).servers(),
            final(self).channels() == old(self).channels(),
            final(self).messages() == old(self).messages().filter(message_other_than(mid)),
    {
        let mut kept: Vec<Message> = Vec::new();
        let mut i: usize = 0;
        while i < self.messages.len()
            invariant
                i <= self.messages@.len(),
                kept@ == self.messages@.subrange(0, i as int).filter(message_other_than(mid)),
            decreases self.messages@.len() - i,
        {
            let m = self.messages[i].duplicate();
            proof {
                let pre = self.messages@.subrange(0, i as int);
                assert(self.messages@.subrange(0, i as int + 1) =~= pre.push(m));
                pre.lemma_filter_push(m, message_other_than(mid));
            }
            if m.id != mid {
                kept.push(m);
            }
            i = i + 1;
        }
        proof {
            assert(self.messages@.subrange(0, i as int) =~= self.messages@);
        }
        proof {
            crate::store::lemma_filter_keeps_keys(
                self.messages@,
                crate::store::message_key(),
                message_other_than(mid),
            );
        }
        self.messages = kept;
    }

    /// Deletes the server record with id `sid`.
    pub(crate) fn remove_server(&mut self, sid: i64)
        requires
            old(self).wf(),
        ensures
            final(self).wf(),
            final(self).servers() == old(self).servers().filter(server_other_than(sid)),
            final(self).channels() == old(self).channels(),
            final(self).messages() == old(self).messages(),
    {
        let ghost pre_all = self.servers();
        let mut kept: Vec<Server> = Vec::new();
        let mut i: usize = 0;
        while i < self.servers.len()
            invariant
                i <= self.servers@.len(),
                pre_all == self.servers(),
                kept@.map_values(server_view()) == pre_all.subrange(0, i as int).filter(
                    server_other_than(sid),
                ),
            decreases self.servers@.len() - i,
        {
            let s = self.servers[i].duplicate();
            proof {
                let pre = pre_all.subrange(0, i as int);
                assert(pre_all.subrange(0, i as int + 1) =~= pre.push(s@));
                pre.lemma_filter_push(s@, server_other_than(sid));
                assert(kept@.push(s).map_values(server_view()) =~= kept@.map_values(
                    server_view(),
                ).push(s@));
            }
            if s.id != sid {
                kept.push(s);
            }
            i = i + 1;
        }
        proof {
            assert(pre_all.subrange(0, i as int) =~= pre_all);
            lemma_filter_keeps_unique(pre_all, server_other_than(sid));
        }
        self.servers = kept;
    }
}

} // verus!
