//! Facts about the store's operations, stated over the models that their
//! contracts use.
use vstd::prelude::*;
use crate::api::{
    distinct, in_role, lemma_filter_member, loaded, removal, subscribed, unique, user_ids,
    without, GuildId, RoleId, Roles,
};

verus! {

broadcast use vstd::seq_lib::group_filter_ensures;

/// Once a subscription succeeded, subscribing the same membership again
/// fails; the failing call leaves the contents as they were.
pub proof fn lemma_subscribe_twice(s: Seq<Roles>, t: Roles)
    requires
        subscribed(s, t) is Some,
    ensures
        subscribed(subscribed(s, t)->Some_0, t) is None,
{
    let s2 = s.push(t);
    assert(s2[s.len() as int] == t);
}

/// A store's snapshot loads back into a store with the same contents, so
/// every lookup gives the same answer on both.
pub proof fn lemma_snapshot_round_trip(s: Seq<Roles>)
    requires
        unique(s),
    ensures
        loaded(s) == Some(s),
{
}

/// Removing a role takes exactly the memberships of that guild and role and
/// keeps every other one; afterwards the role has no subscriber and a second
/// removal finds nothing.
pub proof fn lemma_remove_role_complete(s: Seq<Roles>, g: GuildId, r: RoleId)
    requires
        unique(s),
    ensures
        forall|x: Roles|
            #![trigger s.filter(in_role(g, r)).contains(x)]
            s.filter(in_role(g, r)).contains(x) <==> (s.contains(x) && x.guild_id == g
                && x.role_id == r),
        forall|x: Roles|
            #![trigger without(s, in_role(g, r)).contains(x)]
            without(s, in_role(g, r)).contains(x) <==> (s.contains(x) && !(x.guild_id == g
                && x.role_id == r)),
        distinct(user_ids(without(s, in_role(g, r)).filter(in_role(g, r)))) == Seq::<u64>::empty(),
        removal(without(s, in_role(g, r)), in_role(g, r)) is None,
{
    let p = in_role(g, r);
    let rest = without(s, p);
    assert forall|x: Roles| #![trigger s.filter(p).contains(x)]
        s.filter(p).contains(x) <==> (s.contains(x) && x.guild_id == g && x.role_id == r) by {
        if s.filter(p).contains(x) {
            lemma_filter_member(s, p, x);
        }
        if s.contains(x) && p(x) {
            let i = choose|i: int| 0 <= i < s.len() && s[i] == x;
            s.lemma_filter_contains(p, i);
        }
    }
    assert forall|x: Roles| #![trigger rest.contains(x)]
        rest.contains(x) <==> (s.contains(x) && !(x.guild_id == g && x.role_id == r)) by {
        if rest.contains(x) {
            lemma_filter_member(s, crate::api::negate(p), x);
        }
        if s.contains(x) && !p(x) {
            let i = choose|i: int| 0 <= i < s.len() && s[i] == x;
            s.lemma_filter_contains(crate::api::negate(p), i);
        }
    }
    if rest.filter(p).len() > 0 {
        let x = rest.filter(p)[0];
        assert(rest.filter(p).contains(x));
        lemma_filter_member(rest, p, x);
        lemma_filter_member(s, crate::api::negate(p), x);
    }
    assert(rest.filter(p).len() == 0);
    assert(user_ids(rest.filter(p)) == Seq::<u64>::empty());
}

/// A de-duplicated sequence has no repeats and holds exactly the values of
/// `s`.
pub proof fn lemma_distinct(s: Seq<u64>)
    ensures
        distinct(s).no_duplicates(),
        forall|x: u64| distinct(s).contains(x) <==> s.contains(x),
    decreases s.len(),
{
    if s.len() > 0 {
        let init = s.drop_last();
        lemma_distinct(init);
        assert(init.push(s.last()) == s);
        let d = distinct(init);
        assert forall|x: u64| distinct(s).contains(x) <==> s.contains(x) by {
            if x == s.last() {
                assert(s[s.len() - 1] == x);
                if !d.contains(x) {
                    assert(d.push(x)[d.len() as int] == x);
                }
            }
            if s.contains(x) && x != s.last() {
                let i = choose|i: int| 0 <= i < s.len() && s[i] == x;
                assert(init[i] == x);
                assert(init.contains(x));
                assert(d.contains(x));
                let k = choose|k: int| 0 <= k < d.len() && d[k] == x;
                if !d.contains(s.last()) {
                    assert(d.push(s.last())[k] == x);
                }
            }
            if distinct(s).contains(x) && x != s.last() {
                let i = choose|i: int| 0 <= i < distinct(s).len() && distinct(s)[i] == x;
                if !d.contains(s.last()) {
                    assert(d.push(s.last())[i] == x);
                    assert(d[i] == x);
                }
                assert(init.contains(x));
                let j = choose|j: int| 0 <= j < init.len() && init[j] == x;
                assert(s[j] == x);
            }
        }
    }
}

} // verus!
