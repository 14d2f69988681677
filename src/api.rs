//! The membership store: a duplicate-free collection of
//! (guild, role, user) triples with lookups and bulk removals.
use vstd::prelude::*;

verus! {

pub type Snowflake = u64;

pub type GuildId = Snowflake;

pub type RoleId = Snowflake;

pub type UserId = Snowflake;

/// One membership: `user_id` is subscribed to `role_id` inside `guild_id`.
#[derive(Debug, Clone, Copy, PartialEq, Eq, Structural, Hash, Default)]
pub struct Roles {
    pub guild_id: GuildId,
    pub role_id: RoleId,
    pub user_id: UserId,
}

impl Roles {
    /// The membership that `new` builds.
    pub open spec fn spec_new(guild_id: GuildId, role_id: RoleId, user_id: UserId) -> Roles {
        Roles { guild_id, role_id, user_id }
    }

    /// The membership of `user_id` in `role_id` of `guild_id`.
    pub fn new(guild_id: GuildId, role_id: RoleId, user_id: UserId) -> (r: Self)
        ensures
            r == Roles::spec_new(guild_id, role_id, user_id),
    {
        Roles { guild_id, role_id, user_id }
    }
}

/// Why a store operation failed.
#[derive(Debug, Clone, Copy, PartialEq, Eq, Structural)]
pub enum ApiError {
    /// The membership to insert is already present.
    Insertion,
    /// A stored snapshot could not be read or is not a valid set of memberships.
    BadRead,
    /// No membership matched a removal.
    Removal,
    /// The store could not be written out.
    BadSave,
}

impl ApiError {
    /// A short human-readable description of the error.
    pub fn message(&self) -> (r: &'static str)
        ensures
            r@ == match self {
                ApiError::Insertion => "Duplicate item inserted"@,
                ApiError::BadRead => "Couldn't read file"@,
                ApiError::Removal => "Item doesn't exist"@,
                ApiError::BadSave => "Couldn't save the database"@,
            },
    {
        match self {
            ApiError::Insertion => "Duplicate item inserted",
            ApiError::BadRead => "Couldn't read file",
            ApiError::Removal => "Item doesn't exist",
            ApiError::BadSave => "Couldn't save the database",
        }
    }
}

/// True when no membership occurs twice in `s`.
pub open spec fn unique(s: Seq<Roles>) -> bool {
    forall|i: int, j: int| 0 <= i < j < s.len() ==> s[i] != s[j]
}

/// What subscribing `t` does to the memberships `s`: the new contents,
/// or `None` when `t` is already there.
pub open spec fn subscribed(s: Seq<Roles>, t: Roles) -> Option<Seq<Roles>> {
    if s.contains(t) {
        None
    } else {
        Some(s.push(t))
    }
}

/// Selects the memberships of guild `g`.
pub open spec fn in_guild(g: GuildId) -> spec_fn(Roles) -> bool {
    |x: Roles| x.guild_id == g
}

/// Selects the memberships of role `r` in guild `g`.
pub open spec fn in_role(g: GuildId, r: RoleId) -> spec_fn(Roles) -> bool {
    |x: Roles| x.guild_id == g && x.role_id == r
}

/// Selects the memberships of user `u` in guild `g`.
pub open spec fn of_member(g: GuildId, u: UserId) -> spec_fn(Roles) -> bool {
    |x: Roles| x.guild_id == g && x.user_id == u
}

/// Selects the one membership (`g`, `r`, `u`).
pub open spec fn exactly(g: GuildId, r: RoleId, u: UserId) -> spec_fn(Roles) -> bool {
    |x: Roles| x.guild_id == g && x.role_id == r && x.user_id == u
}

/// The complement of a selection.
pub open spec fn negate(p: spec_fn(Roles) -> bool) -> spec_fn(Roles) -> bool {
    |x: Roles| !p(x)
}

/// What stays of `s` once the memberships that `p` selects are removed.
pub open spec fn without(s: Seq<Roles>, p: spec_fn(Roles) -> bool) -> Seq<Roles> {
    s.filter(negate(p))
}

/// The role of each membership, in order.
pub open spec fn role_ids(s: Seq<Roles>) -> Seq<RoleId> {
    s.map_values(|x: Roles| x.role_id)
}

/// The user of each membership, in order.
pub open spec fn user_ids(s: Seq<Roles>) -> Seq<UserId> {
    s.map_values(|x: Roles| x.user_id)
}

/// `s` with every repeated value dropped, keeping first occurrences in order.
pub open spec fn distinct(s: Seq<u64>) -> Seq<u64>
    decreases s.len(),
{
    if s.len() == 0 {
        s
    } else {
        let d = distinct(s.drop_last());
        if d.contains(s.last()) {
            d
        } else {
            d.push(s.last())
        }
    }
}

/// The subscribers of each role of `rs` in guild `g`, role after role, each
/// role's users once and in store order.
pub open spec fn users_of_roles(s: Seq<Roles>, g: GuildId, rs: Seq<RoleId>) -> Seq<UserId>
    decreases rs.len(),
{
    if rs.len() == 0 {
        Seq::empty()
    } else {
        users_of_roles(s, g, rs.drop_last()) + distinct(user_ids(s.filter(in_role(g, rs.last()))))
    }
}

/// What a removal of the memberships that `p` selects from `s` reports and leaves:
/// `None` when there are none, else the removed memberships and what stays.
pub open spec fn removal(s: Seq<Roles>, p: spec_fn(Roles) -> bool) -> Option<(Seq<Roles>, Seq<Roles>)> {
    if s.filter(p).len() == 0 {
        None
    } else {
        Some((s.filter(p), without(s, p)))
    }
}

/// What loading the memberships `records` gives: `None` when one of them
/// occurs twice, as no store can hold that.
pub open spec fn loaded(records: Seq<Roles>) -> Option<Seq<Roles>> {
    if unique(records) {
        Some(records)
    } else {
        None
    }
}

/// What a filter holds comes from the filtered sequence and is selected.
pub proof fn lemma_filter_member(s: Seq<Roles>, p: spec_fn(Roles) -> bool, x: Roles)
    requires
        s.filter(p).contains(x),
    ensures
        s.contains(x),
        p(x),
    decreases s.len(),
{
    reveal(Seq::filter);
    let init = s.drop_last();
    if s.len() > 0 && init.filter(p).contains(x) {
        lemma_filter_member(init, p, x);
        let j = choose|j: int| 0 <= j < init.len() && init[j] == x;
        assert(s[j] == x);
    } else if s.len() > 0 {
        assert(s[s.len() - 1] == x);
    }
}

/// A filter of a duplicate-free sequence is duplicate-free.
pub proof fn lemma_filter_unique(s: Seq<Roles>, p: spec_fn(Roles) -> bool)
    requires
        unique(s),
    ensures
        unique(s.filter(p)),
    decreases s.len(),
{
    reveal(Seq::filter);
    if s.len() > 0 {
        let init = s.drop_last();
        assert(unique(init));
        lemma_filter_unique(init, p);
        if init.filter(p).contains(s.last()) {
            lemma_filter_member(init, p, s.last());
            let j = choose|j: int| 0 <= j < init.len() && init[j] == s.last();
            assert(s[j] == s[s.len() - 1]);
        }
    }
}

/// One more element: how a filter of a prefix grows.
proof fn lemma_filter_step(s: Seq<Roles>, p: spec_fn(Roles) -> bool, i: int)
    requires
        0 <= i < s.len(),
    ensures
        s.subrange(0, i + 1).filter(p) == (if p(s[i]) {
            s.subrange(0, i).filter(p).push(s[i])
        } else {
            s.subrange(0, i).filter(p)
        }),
{
    reveal(Seq::filter);
    assert(s.subrange(0, i + 1).drop_last() == s.subrange(0, i));
}

/// A filter that selects nothing from `s` keeps everything under its complement.
pub proof fn lemma_filter_none(s: Seq<Roles>, p: spec_fn(Roles) -> bool)
    requires
        s.filter(p).len() == 0,
    ensures
        without(s, p) == s,
    decreases s.len(),
{
    reveal(Seq::filter);
    if s.len() > 0 {
        let init = s.drop_last();
        if p(s.last()) {
            assert(s.filter(p).len() == init.filter(p).len() + 1);
        }
        lemma_filter_none(init, p);
        assert(init.push(s.last()) == s);
    }
}

/// How a selection is written in executable code.
enum Query {
    Guild(GuildId),
    Role(GuildId, RoleId),
    Member(GuildId, UserId),
    Exact(GuildId, RoleId, UserId),
}

impl Query {
    spec fn pred(&self) -> spec_fn(Roles) -> bool {
        match *self {
            Query::Guild(g) => in_guild(g),
            Query::Role(g, r) => in_role(g, r),
            Query::Member(g, u) => of_member(g, u),
            Query::Exact(g, r, u) => exactly(g, r, u),
        }
    }

    fn test(&self, x: &Roles) -> (r: bool)
        ensures
            r == (self.pred())(*x),
    {
        match *self {
            Query::Guild(g) => x.guild_id == g,
            Query::Role(g, r) => x.guild_id == g && x.role_id == r,
            Query::Member(g, u) => x.guild_id == g && x.user_id == u,
            Query::Exact(g, r, u) => x.guild_id == g && x.role_id == r && x.user_id == u,
        }
    }
}

fn collect_role_ids(v: &Vec<Roles>) -> (r: Vec<RoleId>)
    ensures
        r@ == role_ids(v@),
{
    let mut out: Vec<RoleId> = Vec::new();
    let mut i: usize = 0;
    while i < v.len()
        invariant
            i <= v@.len(),
            out@ == role_ids(v@.subrange(0, i as int)),
        decreases v@.len() - i,
    {
        out.push(v[i].role_id);
        assert(role_ids(v@.subrange(0, i + 1)) == role_ids(v@.subrange(0, i as int)).push(v@[i as int].role_id));
        i += 1;
    }
    assert(v@.subrange(0, v@.len() as int) == v@);
    out
}

fn collect_user_ids(v: &Vec<Roles>) -> (r: Vec<UserId>)
    ensures
        r@ == user_ids(v@),
{
    let mut out: Vec<UserId> = Vec::new();
    let mut i: usize = 0;
    while i < v.len()
        invariant
            i <= v@.len(),
            out@ == user_ids(v@.subrange(0, i as int)),
        decreases v@.len() - i,
    {
        out.push(v[i].user_id);
        assert(user_ids(v@.subrange(0, i + 1)) == user_ids(v@.subrange(0, i as int)).push(v@[i as int].user_id));
        i += 1;
    }
    assert(v@.subrange(0, v@.len() as int) == v@);
    out
}

fn contains_id(v: &Vec<u64>, x: u64) -> (r: bool)
    ensures
        r == v@.contains(x),
{
    let mut i: usize = 0;
    while i < v.len()
        invariant
            i <= v@.len(),
            forall|k: int| 0 <= k < i ==> v@[k] != x,
        decreases v@.len() - i,
    {
        if v[i] == x {
            return true;
        }
        i += 1;
    }
    false
}

fn dedup_ids(v: &Vec<u64>) -> (r: Vec<u64>)
    ensures
        r@ == distinct(v@),
{
    let mut out: Vec<u64> = Vec::new();
    let mut i: usize = 0;
    while i < v.len()
        invariant
            i <= v@.len(),
            out@ == distinct(v@.subrange(0, i as int)),
        decreases v@.len() - i,
    {
        assert(v@.subrange(0, i + 1).drop_last() == v@.subrange(0, i as int));
        if !contains_id(&out, v[i]) {
            out.push(v[i]);
        }
        i += 1;
    }
    assert(v@.subrange(0, v@.len() as int) == v@);
    out
}

/// The store of memberships. No triple is ever held twice.
pub struct RolesDatabase {
    items: Vec<Roles>,
}

impl View for RolesDatabase {
    type V = Seq<Roles>;

    closed spec fn view(&self) -> Seq<Roles> {
        self.items@
    }
}

impl RolesDatabase {
    /// Well-formedness: no membership is held twice.
    pub open spec fn wf(&self) -> bool {
        unique(self@)
    }

    /// An empty store.
    pub fn new() -> (r: Self)
        ensures
            r.wf(),
            r@ == Seq::<Roles>::empty(),
    {
        RolesDatabase { items: Vec::new() }
    }

    /// Builds a store from a snapshot of memberships, as saving one wrote it.
    /// Fails with `BadRead` when a membership occurs twice.
    pub fn try_from(records: Vec<Roles>) -> (r: Result<Self, ApiError>)
        ensures
            match loaded(records@) {
                Some(s) => r is Ok && r->Ok_0.wf() && r->Ok_0@ == s,
                None => r == Err::<Self, ApiError>(ApiError::BadRead),
            },
    {
        let mut i: usize = 0;
        while i < records.len()
            invariant
                i <= records@.len(),
                unique(records@.subrange(0, i as int)),
            decreases records@.len() - i,
        {
            let mut j: usize = 0;
            while j < i
                invariant
                    i < records@.len(),
                    j <= i,
                    forall|k: int| 0 <= k < j ==> records@[k] != records@[i as int],
                decreases i - j,
            {
                if records[j] == records[i] {
                    assert(!unique(records@));
                    return Err(ApiError::BadRead);
                }
                j += 1;
            }
            assert(unique(records@.subrange(0, i + 1)));
            i += 1;
        }
        assert(records@.subrange(0, records@.len() as int) == records@);
        Ok(RolesDatabase { items: records })
    }

    /// Every membership held, in store order: what saving writes out.
    pub fn snapshot(&self) -> (r: Vec<Roles>)
        requires
            self.wf(),
        ensures
            r@ == self@,
            loaded(r@) == Some(self@),
    {
        self.items.clone()
    }

    fn contains(&self, t: &Roles) -> (r: bool)
        ensures
            r == self@.contains(*t),
    {
        let mut i: usize = 0;
        while i < self.items.len()
            invariant
                i <= self.items@.len(),
                forall|k: int| 0 <= k < i ==> self.items@[k] != *t,
            decreases self.items@.len() - i,
        {
            if self.items[i] == *t {
                return true;
            }
            i += 1;
        }
        false
    }

    /// Subscribes `user_id` to `role_id` in `guild_id`. Fails with
    /// `Insertion`, leaving the store as it was, when that membership exists.
    pub fn add_user_to_role(&mut self, guild_id: GuildId, role_id: RoleId, user_id: UserId) -> (r:
        Result<(), ApiError>)
        requires
            old(self).wf(),
        ensures
            final(self).wf(),
            match subscribed(old(self)@, Roles::spec_new(guild_id, role_id, user_id)) {
                Some(s) => r == Ok::<(), ApiError>(()) && final(self)@ == s,
                None => r == Err::<(), ApiError>(ApiError::Insertion) && final(self)@ == old(self)@,
            },
    {
        let t = Roles::new(guild_id, role_id, user_id);
        if self.contains(&t) {
            return Err(ApiError::Insertion);
        }
        self.items.push(t);
        Ok(())
    }

    /// The memberships that `q` selects, in store order.
    fn select(&self, q: &Query) -> (r: Vec<Roles>)
        ensures
            r@ == self@.filter(q.pred()),
    {
        let mut out: Vec<Roles> = Vec::new();
        let mut i: usize = 0;
        while i < self.items.len()
            invariant
                i <= self.items@.len(),
                out@ == self.items@.subrange(0, i as int).filter(q.pred()),
            decreases self.items@.len() - i,
        {
            proof {
                lemma_filter_step(self.items@, q.pred(), i as int);
            }
            if q.test(&self.items[i]) {
                out.push(self.items[i]);
            }
            i += 1;
        }
        assert(self.items@.subrange(0, self.items@.len() as int) == self.items@);
        out
    }

    /// Removes the memberships that `q` selects and hands them back, in store order.
    fn drain(&mut self, q: &Query) -> (r: Vec<Roles>)
        requires
            old(self).wf(),
        ensures
            final(self).wf(),
            r@ == old(self)@.filter(q.pred()),
            final(self)@ == without(old(self)@, q.pred()),
    {
        let ghost p = q.pred();
        let mut kept: Vec<Roles> = Vec::new();
        let mut taken: Vec<Roles> = Vec::new();
        let mut i: usize = 0;
        while i < self.items.len()
            invariant
                p == q.pred(),
                i <= self.items@.len(),
                kept@ == self.items@.subrange(0, i as int).filter(negate(p)),
                taken@ == self.items@.subrange(0, i as int).filter(p),
            decreases self.items@.len() - i,
        {
            proof {
                lemma_filter_step(self.items@, p, i as int);
                lemma_filter_step(self.items@, negate(p), i as int);
            }
            if q.test(&self.items[i]) {
                taken.push(self.items[i]);
            } else {
                kept.push(self.items[i]);
            }
            i += 1;
        }
        assert(self.items@.subrange(0, self.items@.len() as int) == self.items@);
        proof {
            lemma_filter_unique(self.items@, negate(p));
        }
        self.items = kept;
        taken
    }

    /// The roles that `user_id` holds in `guild_id`, in store order.
    pub fn show_roles_of_user(&self, guild_id: GuildId, user_id: UserId) -> (r: Vec<RoleId>)
        ensures
            r@ == role_ids(self@.filter(of_member(guild_id, user_id))),
    {
        let found = self.select(&Query::Member(guild_id, user_id));
        collect_role_ids(&found)
    }

    /// The users subscribed to `role_id` in `guild_id`, each once, in store order.
    pub fn show_users_of_role(&self, guild_id: GuildId, role_id: RoleId) -> (r: Vec<UserId>)
        ensures
            r@ == distinct(user_ids(self@.filter(in_role(guild_id, role_id)))),
    {
        let found = self.select(&Query::Role(guild_id, role_id));
        let users = collect_user_ids(&found);
        dedup_ids(&users)
    }

    /// Every role that has a subscriber in `guild_id`, each once, in store order.
    pub fn show_roles_of_guild(&self, guild_id: GuildId) -> (r: Vec<RoleId>)
        ensures
            r@ == distinct(role_ids(self@.filter(in_guild(guild_id)))),
    {
        let found = self.select(&Query::Guild(guild_id));
        let roles = collect_role_ids(&found);
        dedup_ids(&roles)
    }

    /// The subscribers of every role in `role_ids` within `guild_id`, role after role.
    pub fn show_users_of_roles(&self, guild_id: GuildId, role_ids: &Vec<RoleId>) -> (r: Vec<UserId>)
        ensures
            r@ == users_of_roles(self@, guild_id, role_ids@),
    {
        let mut out: Vec<UserId> = Vec::new();
        let mut i: usize = 0;
        while i < role_ids.len()
            invariant
                i <= role_ids@.len(),
                out@ == users_of_roles(self@, guild_id, role_ids@.subrange(0, i as int)),
            decreases role_ids@.len() - i,
        {
            assert(role_ids@.subrange(0, i + 1).drop_last() == role_ids@.subrange(0, i as int));
            let mut users = self.show_users_of_role(guild_id, role_ids[i]);
            out.append(&mut users);
            i += 1;
        }
        assert(role_ids@.subrange(0, role_ids@.len() as int) == role_ids@);
        out
    }

    /// Unsubscribes `user_id` from `role_id` in `guild_id` and returns `user_id`.
    /// Fails with `Removal`, leaving the store as it was, when that membership is absent.
    pub fn remove_user_from_role(&mut self, guild_id: GuildId, role_id: RoleId, user_id: UserId) -> (r:
        Result<UserId, ApiError>)
        requires
            old(self).wf(),
        ensures
            final(self).wf(),
            match removal(old(self)@, exactly(guild_id, role_id, user_id)) {
                Some((_, rest)) => r == Ok::<UserId, ApiError>(user_id) && final(self)@ == rest,
                None => r == Err::<UserId, ApiError>(ApiError::Removal) && final(self)@ == old(self)@,
            },
    {
        let ghost before = self@;
        let removed = self.drain(&Query::Exact(guild_id, role_id, user_id));
        if removed.len() == 0 {
            proof {
                lemma_filter_none(before, exactly(guild_id, role_id, user_id));
            }
            Err(ApiError::Removal)
        } else {
            Ok(removed[0].user_id)
        }
    }

    /// Unsubscribes every user of `role_id` in `guild_id` and returns those users, in store order.
    /// Fails with `Removal`, leaving the store as it was, when the role has no subscriber.
    pub fn remove_role(&mut self, guild_id: GuildId, role_id: RoleId) -> (r: Result<Vec<UserId>, ApiError>)
        requires
            old(self).wf(),
        ensures
            final(self).wf(),
            match removal(old(self)@, in_role(guild_id, role_id)) {
                Some((gone, rest)) => r is Ok && r->Ok_0@ == user_ids(gone) && final(self)@ == rest,
                None => r == Err::<Vec<UserId>, ApiError>(ApiError::Removal) && final(self)@ == old(self)@,
            },
    {
        let ghost before = self@;
        let removed = self.drain(&Query::Role(guild_id, role_id));
        if removed.len() == 0 {
            proof {
                lemma_filter_none(before, in_role(guild_id, role_id));
            }
            Err(ApiError::Removal)
        } else {
            Ok(collect_user_ids(&removed))
        }
    }

    /// Unsubscribes `user_id` from every role of `guild_id` and returns those roles, in store order.
    /// Fails with `Removal`, leaving the store as it was, when the user holds none.
    pub fn remove_user(&mut self, guild_id: GuildId, user_id: UserId) -> (r: Result<Vec<RoleId>, ApiError>)
        requires
            old(self).wf(),
        ensures
            final(self).wf(),
            match removal(old(self)@, of_member(guild_id, user_id)) {
                Some((gone, rest)) => r is Ok && r->Ok_0@ == role_ids(gone) && final(self)@ == rest,
                None => r == Err::<Vec<RoleId>, ApiError>(ApiError::Removal) && final(self)@ == old(self)@,
            },
    {
        let ghost before = self@;
        let removed = self.drain(&Query::Member(guild_id, user_id));
        if removed.len() == 0 {
            proof {
                lemma_filter_none(before, of_member(guild_id, user_id));
            }
            Err(ApiError::Removal)
        } else {
            Ok(collect_role_ids(&removed))
        }
    }

    /// Removes every membership of `guild_id` and returns them, in store order.
    /// Fails with `Removal`, leaving the store as it was, when the guild has none.
    pub fn remove_guild(&mut self, guild_id: GuildId) -> (r: Result<Vec<Roles>, ApiError>)
        requires
            old(self).wf(),
        ensures
            final(self).wf(),
            match removal(old(self)@, in_guild(guild_id)) {
                Some((gone, rest)) => r is Ok && r->Ok_0@ == gone && final(self)@ == rest,
                None => r == Err::<Vec<Roles>, ApiError>(ApiError::Removal) && final(self)@ == old(self)@,
            },
    {
        let ghost before = self@;
        let removed = self.drain(&Query::Guild(guild_id));
        if removed.len() == 0 {
            proof {
                lemma_filter_none(before, in_guild(guild_id));
            }
            Err(ApiError::Removal)
        } else {
            Ok(removed)
        }
    }
}

} // verus!
