//! Records of the membership store: servers, channels and messages.
//!
//! A server's admin and member lists behave as sets under the store's
//! update operators: adding an id that is present changes nothing, and pulling
//! an id removes every occurrence of it.
use vstd::prelude::*;

verus! {

/// A community server.
pub struct Server {
    pub id: i64,
    pub name: String,
    pub image: Option<String>,
    pub owner_id: i64,
    pub admin_ids: Vec<i64>,
    pub member_ids: Vec<i64>,
    /// The single active invite code, if any.
    pub link: Option<String>,
}

/// The mathematical value of a server record.
pub struct ServerView {
    pub id: i64,
    pub name: Seq<char>,
    pub image: Option<Seq<char>>,
    pub owner_id: i64,
    pub admin_ids: Seq<i64>,
    pub member_ids: Seq<i64>,
    pub link: Option<Seq<char>>,
}

/// A channel of a server; `position` is its rank of creation in the server.
pub struct Channel {
    pub id: i64,
    pub server_id: i64,
    pub name: String,
    pub position: i64,
}

/// A chat message posted by `user` in channel `channel_id`.
pub struct Message {
    pub id: i64,
    pub channel_id: i64,
    pub content: String,
    pub user: i64,
    pub time: String,
}

/// The text of an optional string.
pub open spec fn opt_text(o: Option<String>) -> Option<Seq<char>> {
    match o {
        Some(s) => Some(s@),
        None => None,
    }
}

impl View for Server {
    type V = ServerView;

    open spec fn view(&self) -> ServerView {
        ServerView {
            id: self.id,
            name: self.name@,
            image: opt_text(self.image),
            owner_id: self.owner_id,
            admin_ids: self.admin_ids@,
            member_ids: self.member_ids@,
            link: opt_text(self.link),
        }
    }
}

/// `ids` with `u` appended unless it is already there.
pub open spec fn add_to_set(ids: Seq<i64>, u: i64) -> Seq<i64> {
    if ids.contains(u) {
        ids
    } else {
        ids.push(u)
    }
}

/// Holds of every id but `u`.
pub open spec fn other_than(u: i64) -> spec_fn(i64) -> bool {
    |x: i64| x != u
}

/// `ids` with every occurrence of `u` removed.
pub open spec fn pull(ids: Seq<i64>, u: i64) -> Seq<i64> {
    ids.filter(other_than(u))
}

/// After a pull, `u` is gone and every other id is kept.
pub proof fn lemma_pull_contains(ids: Seq<i64>, u: i64, x: i64)
    ensures
        pull(ids, u).contains(x) <==> (ids.contains(x) && x != u),
{
    broadcast use vstd::seq_lib::group_filter_ensures;

    if pull(ids, u).contains(x) {
        ids.lemma_filter_contains_rev(other_than(u), x);
        let j = choose|j: int| 0 <= j < pull(ids, u).len() && pull(ids, u)[j] == x;
        ids.lemma_filter_pred(other_than(u), j);
    }
    if ids.contains(x) && x != u {
        let i = choose|i: int| 0 <= i < ids.len() && ids[i] == x;
        ids.lemma_filter_contains(other_than(u), i);
    }
}

/// Copy of an id list.
pub fn copy_ids(v: &Vec<i64>) -> (r: Vec<i64>)
    ensures
        r@ == v@,
{
    let mut r: Vec<i64> = Vec::new();
    let mut i: usize = 0;
    while i < v.len()
        invariant
            i <= v@.len(),
            r@ == v@.subrange(0, i as int),
        decreases v@.len() - i,
    {
        proof {
            assert(v@.subrange(0, i as int + 1) =~= v@.subrange(0, i as int).push(v@[i as int]));
        }
        r.push(v[i]);
        i = i + 1;
    }
    proof {
        assert(v@.subrange(0, i as int) =~= v@);
    }
    r
}

/// Whether `u` occurs in `v`.
pub fn contains_id(v: &Vec<i64>, u: i64) -> (r: bool)
    ensures
        r == v@.contains(u),
{
    let mut i: usize = 0;
    while i < v.len()
        invariant
            i <= v@.len(),
            forall|j: int| 0 <= j < i ==> v@[j] != u,
        decreases v@.len() - i,
    {
        if v[i] == u {
            return true;
        }
        i = i + 1;
    }
    false
}

/// Adds `u` to `v` unless present.
pub fn add_id(v: &mut Vec<i64>, u: i64)
    ensures
        final(v)@ == add_to_set(old(v)@, u),
{
    if !contains_id(v, u) {
        v.push(u);
    }
}

/// Removes every occurrence of `u` from `v`.
pub fn pull_id(v: &mut Vec<i64>, u: i64)
    ensures
        final(v)@ == pull(old(v)@, u),
{
    let mut kept: Vec<i64> = Vec::new();
    let mut i: usize = 0;
    while i < v.len()
        invariant
            i <= v@.len(),
            kept@ == pull(v@.subrange(0, i as int), u),
        decreases v@.len() - i,
    {
        let x = v[i];
        proof {
            let pre = v@.subrange(0, i as int);
            assert(v@.subrange(0, i as int + 1) =~= pre.push(x));
            pre.lemma_filter_push(x, other_than(u));
        }
        if x != u {
            kept.push(x);
        }
        i = i + 1;
    }
    proof {
        assert(v@.subrange(0, i as int) =~= v@);
    }
    *v = kept;
}

/// Copy of an optional string.
pub fn copy_opt(o: &Option<String>) -> (r: Option<String>)
    ensures
        r == *o,
{
    match o {
        Some(s) => Some(s.clone()),
        None => None,
    }
}

impl Server {
    /// A field-for-field copy.
    pub fn duplicate(&self) -> (r: Server)
        ensures
            r@ == self@,
    {
        Server {
            id: self.id,
            name: self.name.clone(),
            image: copy_opt(&self.image),
            owner_id: self.owner_id,
            admin_ids: copy_ids(&self.admin_ids),
            member_ids: copy_ids(&self.member_ids),
            link: copy_opt(&self.link),
        }
    }
}

impl Channel {
    /// A field-for-field copy.
    pub fn duplicate(&self) -> (r: Channel)
        ensures
            r == *self,
    {
        Channel {
            id: self.id,
            server_id: self.server_id,
            name: self.name.clone(),
            position: self.position,
        }
    }
}

impl Message {
    /// A field-for-field copy.
    pub fn duplicate(&self) -> (r: Message)
        ensures
            r == *self,
    {
        Message {
            id: self.id,
            channel_id: self.channel_id,
            content: self.content.clone(),
            user: self.user,
            time: self.time.clone(),
        }
    }
}

} // verus!
