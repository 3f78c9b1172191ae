//! The verified in-memory store: users, subscriptions and dialog rows with
//! the semantics the bot relies on — unique user ids, a unique
//! (user, subreddit) pair per subscription, cascade on user deletion,
//! replace-semantics for dialog rows keyed by user, and foreign-key checks.
//!
//! Subscriptions are kept sorted by (user id, subreddit); the sort order is
//! also what makes the uniqueness of the pair an invariant rather than a
//! side condition.

use vstd::prelude::*;
use vstd::seq_lib::*;

use crate::errors::StoreError;
use crate::models::{DialogEntity, NewSubscription, Subscription, User};
use crate::textfmt::{lemma_lex_antisym, lemma_lex_total, lemma_lex_trans, lex_le, lex_lt, str_lt};
use crate::time::Timestamp;

verus! {

pub open spec fn spec_has_user(users: Seq<User>, id: Seq<char>) -> bool {
    exists|i: int| 0 <= i < users.len() && users[i].id@ == id
}

pub open spec fn spec_has_sub(subs: Seq<Subscription>, u: Seq<char>, t: Seq<char>) -> bool {
    exists|i: int| 0 <= i < subs.len() && subs[i].user_id@ == u && subs[i].subreddit@ == t
}

pub open spec fn spec_has_dialog(ds: Seq<DialogEntity>, u: Seq<char>) -> bool {
    exists|i: int| 0 <= i < ds.len() && ds[i].user_id@ == u
}

/// The dialog row of a user, when one exists.
pub open spec fn find_dialog(ds: Seq<DialogEntity>, u: Seq<char>) -> Option<DialogEntity>
    decreases ds.len(),
{
    if ds.len() == 0 {
        None
    } else if ds[0].user_id@ == u {
        Some(ds[0])
    } else {
        find_dialog(ds.skip(1), u)
    }
}

pub open spec fn users_without(users: Seq<User>, id: Seq<char>) -> Seq<User>
    decreases users.len(),
{
    if users.len() == 0 {
        users
    } else {
        let rest = users_without(users.drop_last(), id);
        if users.last().id@ != id {
            rest.push(users.last())
        } else {
            rest
        }
    }
}

pub open spec fn dialogs_without(ds: Seq<DialogEntity>, u: Seq<char>) -> Seq<DialogEntity>
    decreases ds.len(),
{
    if ds.len() == 0 {
        ds
    } else {
        let rest = dialogs_without(ds.drop_last(), u);
        if ds.last().user_id@ != u {
            rest.push(ds.last())
        } else {
            rest
        }
    }
}

/// The subscriptions a user owns, in store order.
pub open spec fn subs_of(subs: Seq<Subscription>, u: Seq<char>) -> Seq<Subscription>
    decreases subs.len(),
{
    if subs.len() == 0 {
        subs
    } else {
        let rest = subs_of(subs.drop_last(), u);
        if subs.last().user_id@ == u {
            rest.push(subs.last())
        } else {
            rest
        }
    }
}

/// Everything but the subscriptions a user owns.
pub open spec fn subs_not_of(subs: Seq<Subscription>, u: Seq<char>) -> Seq<Subscription>
    decreases subs.len(),
{
    if subs.len() == 0 {
        subs
    } else {
        let rest = subs_not_of(subs.drop_last(), u);
        if subs.last().user_id@ != u {
            rest.push(subs.last())
        } else {
            rest
        }
    }
}

/// Everything but one (user, subreddit) row.
pub open spec fn subs_without(subs: Seq<Subscription>, u: Seq<char>, t: Seq<char>) -> Seq<
    Subscription,
>
    decreases subs.len(),
{
    if subs.len() == 0 {
        subs
    } else {
        let rest = subs_without(subs.drop_last(), u, t);
        if !(subs.last().user_id@ == u && subs.last().subreddit@ == t) {
            rest.push(subs.last())
        } else {
            rest
        }
    }
}

/// How many rows carry one (user, subreddit) pair.
pub open spec fn sub_pair_count(subs: Seq<Subscription>, u: Seq<char>, t: Seq<char>) -> nat
    decreases subs.len(),
{
    if subs.len() == 0 {
        0nat
    } else {
        sub_pair_count(subs.drop_last(), u, t) + if subs.last().user_id@ == u
            && subs.last().subreddit@ == t {
            1nat
        } else {
            0nat
        }
    }
}

/// The store order on subscription rows: by user id, breaking ties by
/// subreddit.
pub open spec fn sub_key_lt(a: Subscription, b: Subscription) -> bool {
    lex_lt(a.user_id@, b.user_id@) || (a.user_id@ == b.user_id@ && lex_lt(
        a.subreddit@,
        b.subreddit@,
    ))
}

/// Whether a row sorts strictly before the (user, subreddit) pair.
pub open spec fn key_lt_pair(a: Subscription, u: Seq<char>, t: Seq<char>) -> bool {
    lex_lt(a.user_id@, u) || (a.user_id@ == u && lex_lt(a.subreddit@, t))
}

pub open spec fn subs_sorted(subs: Seq<Subscription>) -> bool {
    forall|i: int, j: int|
        0 <= i < j < subs.len() ==> sub_key_lt(#[trigger] subs[i], #[trigger] subs[j])
}

pub proof fn lemma_key_total(a: Subscription, b: Subscription)
    requires
        !sub_key_lt(a, b),
        !(a.user_id@ == b.user_id@ && a.subreddit@ == b.subreddit@),
    ensures
        sub_key_lt(b, a),
{
    lemma_lex_total(a.user_id@, b.user_id@);
    if a.user_id@ == b.user_id@ {
        lemma_lex_total(a.subreddit@, b.subreddit@);
    } else {
        if lex_le(a.user_id@, b.user_id@) {
            assert(lex_lt(a.user_id@, b.user_id@));
        }
    }
}

pub proof fn lemma_key_trans(a: Subscription, b: Subscription, c: Subscription)
    requires
        sub_key_lt(a, b),
        sub_key_lt(b, c),
    ensures
        sub_key_lt(a, c),
{
    if a.user_id@ == b.user_id@ && b.user_id@ == c.user_id@ {
        lemma_lex_trans(a.subreddit@, b.subreddit@, c.subreddit@);
        if a.subreddit@ == c.subreddit@ {
            lemma_lex_antisym(a.subreddit@, b.subreddit@);
        }
    } else if lex_lt(a.user_id@, b.user_id@) && lex_lt(b.user_id@, c.user_id@) {
        lemma_lex_trans(a.user_id@, b.user_id@, c.user_id@);
        if a.user_id@ == c.user_id@ {
            lemma_lex_antisym(a.user_id@, b.user_id@);
        }
    }
}

/// An element kept by `users_without` survives from the rows before the removal.
proof fn lemma_users_without_elem(s: Seq<User>, id: Seq<char>, i: int)
    requires
        0 <= i < users_without(s, id).len(),
    ensures
        users_without(s, id)[i].id@ != id,
        exists|k: int| 0 <= k < s.len() && s[k] == users_without(s, id)[i],
    decreases s.len(),
{
    let out = users_without(s, id);
    let rest = users_without(s.drop_last(), id);
    if s.last().id@ != id && i == out.len() - 1 {
        assert(s[s.len() - 1] == out[i]);
    } else {
        lemma_users_without_elem(s.drop_last(), id, i);
        let k = choose|k: int| 0 <= k < s.drop_last().len() && s.drop_last()[k] == rest[i];
        assert(s[k] == out[i]);
    }
}

/// A user survives the removal of another exactly when it was there and is
/// not the one removed.
pub proof fn lemma_users_without_has(s: Seq<User>, id: Seq<char>, x: Seq<char>)
    ensures
        spec_has_user(users_without(s, id), x) <==> (spec_has_user(s, x) && x != id),
    decreases s.len(),
{
    let out = users_without(s, id);
    if s.len() == 0 {
    } else {
        let rest = users_without(s.drop_last(), id);
        lemma_users_without_has(s.drop_last(), id, x);
        assert(spec_has_user(s.drop_last(), x) ==> spec_has_user(s, x)) by {
            if spec_has_user(s.drop_last(), x) {
                let k = choose|k: int|
                    0 <= k < s.drop_last().len() && s.drop_last()[k].id@ == x;
                assert(s[k].id@ == x);
            }
        }
        if spec_has_user(s, x) && x != id {
            let k = choose|k: int| 0 <= k < s.len() && s[k].id@ == x;
            if k == s.len() - 1 {
                if s.last().id@ != id {
                    assert(out[out.len() - 1].id@ == x);
                }
            } else {
                assert(s.drop_last()[k].id@ == x);
                let j = choose|j: int| 0 <= j < rest.len() && rest[j].id@ == x;
                if s.last().id@ != id {
                    assert(out[j].id@ == x);
                }
            }
        }
        if spec_has_user(out, x) {
            let j = choose|j: int| 0 <= j < out.len() && out[j].id@ == x;
            lemma_users_without_elem(s, id, j);
            let k = choose|k: int| 0 <= k < s.len() && s[k] == out[j];
            assert(spec_has_user(s, x));
        }
    }
}

/// An element kept by `dialogs_without` survives from the rows before the removal.
proof fn lemma_dialogs_without_elem(s: Seq<DialogEntity>, u: Seq<char>, i: int)
    requires
        0 <= i < dialogs_without(s, u).len(),
    ensures
        dialogs_without(s, u)[i].user_id@ != u,
        exists|k: int| 0 <= k < s.len() && s[k] == dialogs_without(s, u)[i],
    decreases s.len(),
{
    let out = dialogs_without(s, u);
    let rest = dialogs_without(s.drop_last(), u);
    if s.last().user_id@ != u && i == out.len() - 1 {
        assert(s[s.len() - 1] == out[i]);
    } else {
        lemma_dialogs_without_elem(s.drop_last(), u, i);
        let k = choose|k: int| 0 <= k < s.drop_last().len() && s.drop_last()[k] == rest[i];
        assert(s[k] == out[i]);
    }
}

/// An element kept by `subs_not_of` survives from the rows before the removal.
proof fn lemma_subs_not_of_elem(s: Seq<Subscription>, u: Seq<char>, i: int)
    requires
        0 <= i < subs_not_of(s, u).len(),
    ensures
        subs_not_of(s, u)[i].user_id@ != u,
        exists|k: int| 0 <= k < s.len() && s[k] == subs_not_of(s, u)[i],
    decreases s.len(),
{
    let out = subs_not_of(s, u);
    let rest = subs_not_of(s.drop_last(), u);
    if s.last().user_id@ != u && i == out.len() - 1 {
        assert(s[s.len() - 1] == out[i]);
    } else {
        lemma_subs_not_of_elem(s.drop_last(), u, i);
        let k = choose|k: int| 0 <= k < s.drop_last().len() && s.drop_last()[k] == rest[i];
        assert(s[k] == out[i]);
    }
}

/// An element kept by `subs_without` survives from the rows before the removal.
proof fn lemma_subs_without_elem(s: Seq<Subscription>, u: Seq<char>, t: Seq<char>, i: int)
    requires
        0 <= i < subs_without(s, u, t).len(),
    ensures
        !(subs_without(s, u, t)[i].user_id@ == u && subs_without(s, u, t)[i].subreddit@ == t),
        exists|k: int| 0 <= k < s.len() && s[k] == subs_without(s, u, t)[i],
    decreases s.len(),
{
    let out = subs_without(s, u, t);
    let rest = subs_without(s.drop_last(), u, t);
    if !(s.last().user_id@ == u && s.last().subreddit@ == t) && i == out.len() - 1 {
        assert(s[s.len() - 1] == out[i]);
    } else {
        lemma_subs_without_elem(s.drop_last(), u, t, i);
        let k = choose|k: int| 0 <= k < s.drop_last().len() && s.drop_last()[k] == rest[i];
        assert(s[k] == out[i]);
    }
}

/// An element kept by `subs_of` belongs to the user and survives from the
/// rows before the filter.
pub proof fn lemma_subs_of_elem(s: Seq<Subscription>, u: Seq<char>, i: int)
    requires
        0 <= i < subs_of(s, u).len(),
    ensures
        subs_of(s, u)[i].user_id@ == u,
        exists|k: int| 0 <= k < s.len() && s[k] == subs_of(s, u)[i],
    decreases s.len(),
{
    let out = subs_of(s, u);
    let rest = subs_of(s.drop_last(), u);
    if s.last().user_id@ == u && i == out.len() - 1 {
        assert(s[s.len() - 1] == out[i]);
    } else {
        lemma_subs_of_elem(s.drop_last(), u, i);
        let k = choose|k: int| 0 <= k < s.drop_last().len() && s.drop_last()[k] == rest[i];
        assert(s[k] == out[i]);
    }
}

/// A pair present among distinct sorted rows is counted exactly once.
pub proof fn lemma_pair_count(s: Seq<Subscription>, u: Seq<char>, t: Seq<char>)
    requires
        subs_sorted(s),
    ensures
        sub_pair_count(s, u, t) == if spec_has_sub(s, u, t) { 1nat } else { 0nat },
    decreases s.len(),
{
    if s.len() > 0 {
        let rest = s.drop_last();
        assert(subs_sorted(rest)) by {
            assert(forall|i: int| 0 <= i < rest.len() ==> rest[i] == s[i]);
        }
        lemma_pair_count(rest, u, t);
        if s.last().user_id@ == u && s.last().subreddit@ == t {
            // No earlier row can carry the same pair: the order is strict.
            assert(!spec_has_sub(rest, u, t)) by {
                if spec_has_sub(rest, u, t) {
                    let k = choose|k: int|
                        0 <= k < rest.len() && rest[k].user_id@ == u && rest[k].subreddit@ == t;
                    assert(sub_key_lt(s[k], s[s.len() - 1]));
                    assert(false);
                }
            }
            assert(s[s.len() - 1].user_id@ == u && s[s.len() - 1].subreddit@ == t);
        } else {
            assert(spec_has_sub(s, u, t) ==> spec_has_sub(rest, u, t)) by {
                if spec_has_sub(s, u, t) {
                    let k = choose|k: int|
                        0 <= k < s.len() && s[k].user_id@ == u && s[k].subreddit@ == t;
                    assert(rest[k].user_id@ == u);
                }
            }
            assert(spec_has_sub(rest, u, t) ==> spec_has_sub(s, u, t)) by {
                if spec_has_sub(rest, u, t) {
                    let k = choose|k: int|
                        0 <= k < rest.len() && rest[k].user_id@ == u && rest[k].subreddit@ == t;
                    assert(s[k].user_id@ == u && s[k].subreddit@ == t);
                }
            }
        }
    }
}

/// Removing rows keeps the subscription order sorted: `subs_not_of`.
proof fn lemma_subs_not_of_sorted(s: Seq<Subscription>, u: Seq<char>)
    requires
        subs_sorted(s),
    ensures
        subs_sorted(subs_not_of(s, u)),
    decreases s.len(),
{
    if s.len() > 0 {
        let rest = s.drop_last();
        assert(subs_sorted(rest)) by {
            assert(forall|i: int| 0 <= i < rest.len() ==> rest[i] == s[i]);
        }
        lemma_subs_not_of_sorted(rest, u);
        let f = subs_not_of(rest, u);
        let out = subs_not_of(s, u);
        if s.last().user_id@ != u {
            assert(out == f.push(s.last()));
            assert forall|i: int, j: int|
                0 <= i < j < out.len() implies sub_key_lt(#[trigger] out[i], #[trigger] out[j]) by {
                if j < f.len() {
                    assert(out[i] == f[i] && out[j] == f[j]);
                } else {
                    assert(out[j] == s.last());
                    assert(out[i] == f[i]);
                    lemma_subs_not_of_elem(rest, u, i);
                    let k = choose|k: int| 0 <= k < rest.len() && rest[k] == f[i];
                    assert(sub_key_lt(s[k], s[s.len() - 1]));
                }
            }
        }
    }
}

/// Removing one row keeps the subscription order sorted: `subs_without`.
proof fn lemma_subs_without_sorted(s: Seq<Subscription>, u: Seq<char>, t: Seq<char>)
    requires
        subs_sorted(s),
    ensures
        subs_sorted(subs_without(s, u, t)),
    decreases s.len(),
{
    if s.len() > 0 {
        let rest = s.drop_last();
        assert(subs_sorted(rest)) by {
            assert(forall|i: int| 0 <= i < rest.len() ==> rest[i] == s[i]);
        }
        lemma_subs_without_sorted(rest, u, t);
        let f = subs_without(rest, u, t);
        let out = subs_without(s, u, t);
        if !(s.last().user_id@ == u && s.last().subreddit@ == t) {
            assert(out == f.push(s.last()));
            assert forall|i: int, j: int|
                0 <= i < j < out.len() implies sub_key_lt(#[trigger] out[i], #[trigger] out[j]) by {
                if j < f.len() {
                    assert(out[i] == f[i] && out[j] == f[j]);
                } else {
                    assert(out[j] == s.last());
                    assert(out[i] == f[i]);
                    lemma_subs_without_elem(rest, u, t, i);
                    let k = choose|k: int| 0 <= k < rest.len() && rest[k] == f[i];
                    assert(sub_key_lt(s[k], s[s.len() - 1]));
                }
            }
        }
    }
}

/// Removing rows keeps user ids pairwise distinct.
proof fn lemma_users_without_distinct(s: Seq<User>, id: Seq<char>)
    requires
        forall|i: int, j: int| 0 <= i < j < s.len() ==> (#[trigger] s[i]).id@ != (#[trigger] s[j]).id@,
    ensures
        forall|i: int, j: int|
            0 <= i < j < users_without(s, id).len() ==> (#[trigger] users_without(s, id)[i]).id@
                != (#[trigger] users_without(s, id)[j]).id@,
    decreases s.len(),
{
    if s.len() > 0 {
        let rest = s.drop_last();
        assert(forall|i: int| 0 <= i < rest.len() ==> rest[i] == s[i]);
        lemma_users_without_distinct(rest, id);
        let f = users_without(rest, id);
        let out = users_without(s, id);
        if s.last().id@ != id {
            assert(out == f.push(s.last()));
            assert forall|i: int, j: int|
                0 <= i < j < out.len() implies (#[trigger] out[i]).id@ != (
            #[trigger] out[j]).id@ by {
                if j < f.len() {
                    assert(out[i] == f[i] && out[j] == f[j]);
                } else {
                    assert(out[j] == s.last());
                    assert(out[i] == f[i]);
                    lemma_users_without_elem(rest, id, i);
                    let k = choose|k: int| 0 <= k < rest.len() && rest[k] == f[i];
                    assert(s[k].id@ != s[s.len() - 1].id@);
                }
            }
        }
    }
}

/// Removing rows keeps dialog user ids pairwise distinct.
proof fn lemma_dialogs_without_distinct(s: Seq<DialogEntity>, u: Seq<char>)
    requires
        forall|i: int, j: int|
            0 <= i < j < s.len() ==> (#[trigger] s[i]).user_id@ != (#[trigger] s[j]).user_id@,
    ensures
        forall|i: int, j: int|
            0 <= i < j < dialogs_without(s, u).len() ==> (#[trigger] dialogs_without(s, u)[i]).user_id@
                != (#[trigger] dialogs_without(s, u)[j]).user_id@,
    decreases s.len(),
{
    if s.len() > 0 {
        let rest = s.drop_last();
        assert(forall|i: int| 0 <= i < rest.len() ==> rest[i] == s[i]);
        lemma_dialogs_without_distinct(rest, u);
        let f = dialogs_without(rest, u);
        let out = dialogs_without(s, u);
        if s.last().user_id@ != u {
            assert(out == f.push(s.last()));
            assert forall|i: int, j: int|
                0 <= i < j < out.len() implies (#[trigger] out[i]).user_id@ != (
            #[trigger] out[j]).user_id@ by {
                if j < f.len() {
                    assert(out[i] == f[i] && out[j] == f[j]);
                } else {
                    assert(out[j] == s.last());
                    assert(out[i] == f[i]);
                    lemma_dialogs_without_elem(rest, u, i);
                    let k = choose|k: int| 0 <= k < rest.len() && rest[k] == f[i];
                    assert(s[k].user_id@ != s[s.len() - 1].user_id@);
                }
            }
        }
    }
}

/// With pairwise-distinct user ids, a matching row is the one `find_dialog`
/// returns.
pub proof fn lemma_find_dialog_at(ds: Seq<DialogEntity>, u: Seq<char>, i: int)
    requires
        forall|a: int, b: int|
            0 <= a < b < ds.len() ==> (#[trigger] ds[a]).user_id@ != (#[trigger] ds[b]).user_id@,
        0 <= i < ds.len(),
        ds[i].user_id@ == u,
    ensures
        find_dialog(ds, u) == Some(ds[i]),
    decreases ds.len(),
{
    if i > 0 {
        assert(ds[0].user_id@ != u);
        let rest = ds.skip(1);
        assert(forall|a: int, b: int|
            0 <= a < b < rest.len() ==> (#[trigger] rest[a]).user_id@ != (
            #[trigger] rest[b]).user_id@) by {
            assert(forall|a: int| 0 <= a < rest.len() ==> rest[a] == ds[a + 1]);
        }
        assert(rest[i - 1] == ds[i]);
        lemma_find_dialog_at(rest, u, i - 1);
    }
}

/// One pair, one row: a (user, subreddit) pair present among the store's
/// rows is carried by exactly one of them, so a duplicate attempt — which
/// the store refuses with a unique violation — can never leave a second
/// row behind.
pub proof fn lemma_duplicate_excluded(subs: Seq<Subscription>, u: Seq<char>, t: Seq<char>)
    requires
        subs_sorted(subs),
        spec_has_sub(subs, u, t),
    ensures
        sub_pair_count(subs, u, t) == 1,
{
    lemma_pair_count(subs, u, t);
}

/// The in-memory store. One instance plays the role the relational store
/// plays for the bot; everything the bot ever asks of it is a method here.
pub struct DbClient {
    pub users: Vec<User>,
    pub subscriptions: Vec<Subscription>,
    pub dialogs: Vec<DialogEntity>,
    pub next_id: i32,
}

impl DbClient {
    /// Well-formedness: distinct user ids, subscriptions strictly sorted by
    /// (user, subreddit) with valid schedule fields, ids below the id
    /// counter, dialog rows keyed by distinct existing users, and every
    /// subscription owned by an existing user.
    pub open spec fn inv(self) -> bool {
        &&& forall|i: int, j: int|
            0 <= i < j < self.users@.len() ==> (#[trigger] self.users@[i]).id@ != (
            #[trigger] self.users@[j]).id@
        &&& subs_sorted(self.subscriptions@)
        &&& forall|i: int|
            0 <= i < self.subscriptions@.len() ==> (#[trigger] self.subscriptions@[i]).valid()
        &&& forall|i: int|
            0 <= i < self.subscriptions@.len() ==> 1 <= (#[trigger] self.subscriptions@[i]).id
                < self.next_id
        &&& forall|i: int|
            0 <= i < self.subscriptions@.len() ==> spec_has_user(
                self.users@,
                (#[trigger] self.subscriptions@[i]).user_id@,
            )
        &&& forall|i: int, j: int|
            0 <= i < j < self.dialogs@.len() ==> (#[trigger] self.dialogs@[i]).user_id@ != (
            #[trigger] self.dialogs@[j]).user_id@
        &&& forall|i: int|
            0 <= i < self.dialogs@.len() ==> spec_has_user(
                self.users@,
                (#[trigger] self.dialogs@[i]).user_id@,
            )
        &&& 1 <= self.next_id
    }

    /// A fresh, empty store.
    pub fn new() -> (r: DbClient)
        ensures
            r.inv(),
            r.users@.len() == 0,
            r.subscriptions@.len() == 0,
            r.dialogs@.len() == 0,
            r.next_id == 1,
    {
        DbClient { users: Vec::new(), subscriptions: Vec::new(), dialogs: Vec::new(), next_id: 1 }
    }

    /// The index of a user row, when the id is present.
    fn find_user_idx(&self, id: &String) -> (r: Option<usize>)
        ensures
            match r {
                Some(i) => 0 <= i < self.users@.len() && self.users@[i as int].id@ == id@,
                None => !spec_has_user(self.users@, id@),
            },
    {
        let n = self.users.len();
        let mut i: usize = 0;
        while i < n
            invariant
                0 <= i <= n,
                n == self.users@.len(),
                forall|k: int| 0 <= k < i ==> (#[trigger] self.users@[k]).id@ != id@,
            decreases n - i,
        {
            if self.users[i].id.eq(id) {
                return Some(i);
            }
            i += 1;
        }
        None
    }

    /// The index of a user's dialog row, when one is present.
    fn find_dialog_idx(&self, user_id: &String) -> (r: Option<usize>)
        ensures
            match r {
                Some(i) => 0 <= i < self.dialogs@.len() && self.dialogs@[i as int].user_id@
                    == user_id@,
                None => !spec_has_dialog(self.dialogs@, user_id@),
            },
    {
        let n = self.dialogs.len();
        let mut i: usize = 0;
        while i < n
            invariant
                0 <= i <= n,
                n == self.dialogs@.len(),
                forall|k: int| 0 <= k < i ==> (#[trigger] self.dialogs@[k]).user_id@ != user_id@,
            decreases n - i,
        {
            if self.dialogs[i].user_id.eq(user_id) {
                return Some(i);
            }
            i += 1;
        }
        None
    }

    /// Creates the user row, or reports the unique violation a second
    /// `/start` runs into.
    pub fn create_user(&mut self, id: &str, created_at: &str) -> (r: Result<User, StoreError>)
        requires
            old(self).inv(),
        ensures
            final(self).inv(),
            final(self).subscriptions@ == old(self).subscriptions@,
            final(self).dialogs@ == old(self).dialogs@,
            final(self).next_id == old(self).next_id,
            r is Err <==> spec_has_user(old(self).users@, id@),
            r is Err ==> final(self).users@ == old(self).users@ && (r matches Err(
                StoreError::UniqueViolation(m),
            ) && m@ == "UNIQUE constraint failed: users.id"@),
            r is Ok ==> {
                &&& r->Ok_0.id@ == id@
                &&& r->Ok_0.created_at@ == created_at@
                &&& final(self).users@ == old(self).users@.push(r->Ok_0)
            },
            spec_has_user(final(self).users@, id@),
    {
        let key: String = id.to_owned();
        if let Some(_i) = self.find_user_idx(&key) {
            return Err(
                StoreError::UniqueViolation("UNIQUE constraint failed: users.id".to_owned()),
            );
        }
        let user = User { id: key, created_at: created_at.to_owned() };
        let out = user.duplicate();
        self.users.push(user);
        proof {
            let pushed = self.users@;
            assert(spec_has_user(pushed, id@)) by {
                assert(pushed[pushed.len() - 1].id@ == id@);
            }
            assert forall|i: int|
                0 <= i < self.subscriptions@.len() implies spec_has_user(
                self.users@,
                (#[trigger] self.subscriptions@[i]).user_id@,
            ) by {
                let u = self.subscriptions@[i].user_id@;
                let j = choose|j: int|
                    0 <= j < old(self).users@.len() && old(self).users@[j].id@ == u;
                assert(self.users@[j].id@ == u);
            }
            assert forall|i: int|
                0 <= i < self.dialogs@.len() implies spec_has_user(
                self.users@,
                (#[trigger] self.dialogs@[i]).user_id@,
            ) by {
                let u = self.dialogs@[i].user_id@;
                let j = choose|j: int|
                    0 <= j < old(self).users@.len() && old(self).users@[j].id@ == u;
                assert(self.users@[j].id@ == u);
            }
        }
        Ok(out)
    }

    /// All user rows, as stored.
    pub fn get_users(&self) -> (r: Result<Vec<User>, StoreError>)
        ensures
            r is Ok,
            r->Ok_0@ == self.users@,
    {
        let n = self.users.len();
        let mut out: Vec<User> = Vec::new();
        let mut i: usize = 0;
        while i < n
            invariant
                0 <= i <= n,
                n == self.users@.len(),
                out@ == self.users@.take(i as int),
            decreases n - i,
        {
            out.push(self.users[i].duplicate());
            proof {
                assert(out@ =~= self.users@.take(i + 1));
            }
            i += 1;
        }
        proof {
            assert(self.users@.take(n as int) =~= self.users@);
        }
        Ok(out)
    }

    /// Deletes the user row and, cascading, the user's subscriptions and
    /// dialog row. Deleting an absent user is a no-op that still succeeds.
    pub fn delete_user(&mut self, id: &str) -> (r: Result<(), StoreError>)
        requires
            old(self).inv(),
        ensures
            final(self).inv(),
            r is Ok,
            final(self).users@ == users_without(old(self).users@, id@),
            final(self).subscriptions@ == subs_not_of(old(self).subscriptions@, id@),
            final(self).dialogs@ == dialogs_without(old(self).dialogs@, id@),
            final(self).next_id == old(self).next_id,
    {
        let key: String = id.to_owned();

        let mut new_users: Vec<User> = Vec::new();
        let un = self.users.len();
        let mut i: usize = 0;
        while i < un
            invariant
                0 <= i <= un,
                un == self.users@.len(),
                key@ == id@,
                new_users@ == users_without(self.users@.take(i as int), id@),
            decreases un - i,
        {
            proof {
                assert(self.users@.take(i + 1).drop_last() =~= self.users@.take(i as int));
                assert(self.users@.take(i + 1).last() == self.users@[i as int]);
            }
            if !self.users[i].id.eq(&key) {
                new_users.push(self.users[i].duplicate());
            }
            i += 1;
        }
        proof {
            assert(self.users@.take(un as int) =~= self.users@);
        }

        let mut new_subs: Vec<Subscription> = Vec::new();
        let sn = self.subscriptions.len();
        let mut j: usize = 0;
        while j < sn
            invariant
                0 <= j <= sn,
                sn == self.subscriptions@.len(),
                key@ == id@,
                new_subs@ == subs_not_of(self.subscriptions@.take(j as int), id@),
            decreases sn - j,
        {
            proof {
                assert(self.subscriptions@.take(j + 1).drop_last() =~= self.subscriptions@.take(
                    j as int,
                ));
                assert(self.subscriptions@.take(j + 1).last() == self.subscriptions@[j as int]);
            }
            if !self.subscriptions[j].user_id.eq(&key) {
                new_subs.push(self.subscriptions[j].duplicate());
            }
            j += 1;
        }
        proof {
            assert(self.subscriptions@.take(sn as int) =~= self.subscriptions@);
        }

        let mut new_dialogs: Vec<DialogEntity> = Vec::new();
        let dn = self.dialogs.len();
        let mut k: usize = 0;
        while k < dn
            invariant
                0 <= k <= dn,
                dn == self.dialogs@.len(),
                key@ == id@,
                new_dialogs@ == dialogs_without(self.dialogs@.take(k as int), id@),
            decreases dn - k,
        {
            proof {
                assert(self.dialogs@.take(k + 1).drop_last() =~= self.dialogs@.take(k as int));
                assert(self.dialogs@.take(k + 1).last() == self.dialogs@[k as int]);
            }
            if !self.dialogs[k].user_id.eq(&key) {
                new_dialogs.push(self.dialogs[k].duplicate());
            }
            k += 1;
        }
        proof {
            assert(self.dialogs@.take(dn as int) =~= self.dialogs@);
        }

        self.users = new_users;
        self.subscriptions = new_subs;
        self.dialogs = new_dialogs;

        proof {
            let ou = old(self).users@;
            let os = old(self).subscriptions@;
            let od = old(self).dialogs@;
            lemma_users_without_distinct(ou, id@);
            lemma_subs_not_of_sorted(os, id@);
            lemma_dialogs_without_distinct(od, id@);
            assert forall|m: int| 0 <= m < self.subscriptions@.len() implies {
                &&& (#[trigger] self.subscriptions@[m]).valid()
                &&& 1 <= self.subscriptions@[m].id < self.next_id
                &&& spec_has_user(self.users@, self.subscriptions@[m].user_id@)
            } by {
                lemma_subs_not_of_elem(os, id@, m);
                let w = choose|w: int| 0 <= w < os.len() && os[w] == self.subscriptions@[m];
                lemma_users_without_has(ou, id@, self.subscriptions@[m].user_id@);
            }
            assert forall|m: int| 0 <= m < self.dialogs@.len() implies spec_has_user(
                self.users@,
                (#[trigger] self.dialogs@[m]).user_id@,
            ) by {
                lemma_dialogs_without_elem(od, id@, m);
                let w = choose|w: int| 0 <= w < od.len() && od[w] == self.dialogs@[m];
                lemma_users_without_has(ou, id@, self.dialogs@[m].user_id@);
            }
        }
        Ok(())
    }

    /// Deletes one (user, subreddit) subscription row; absent rows delete
    /// to success just the same.
    pub fn unsubscribe(&mut self, user_id: &str, subreddit: &str) -> (r: Result<(), StoreError>)
        requires
            old(self).inv(),
        ensures
            final(self).inv(),
            r is Ok,
            final(self).users@ == old(self).users@,
            final(self).dialogs@ == old(self).dialogs@,
            final(self).next_id == old(self).next_id,
            final(self).subscriptions@ == subs_without(
                old(self).subscriptions@,
                user_id@,
                subreddit@,
            ),
    {
        let ukey: String = user_id.to_owned();
        let tkey: String = subreddit.to_owned();

        let mut new_subs: Vec<Subscription> = Vec::new();
        let sn = self.subscriptions.len();
        let mut j: usize = 0;
        while j < sn
            invariant
                0 <= j <= sn,
                sn == self.subscriptions@.len(),
                ukey@ == user_id@,
                tkey@ == subreddit@,
                new_subs@ == subs_without(self.subscriptions@.take(j as int), user_id@, subreddit@),
            decreases sn - j,
        {
            proof {
                assert(self.subscriptions@.take(j + 1).drop_last() =~= self.subscriptions@.take(
                    j as int,
                ));
                assert(self.subscriptions@.take(j + 1).last() == self.subscriptions@[j as int]);
            }
            if !(self.subscriptions[j].user_id.eq(&ukey) && self.subscriptions[j].subreddit.eq(
                &tkey,
            )) {
                new_subs.push(self.subscriptions[j].duplicate());
            }
            j += 1;
        }
        proof {
            assert(self.subscriptions@.take(sn as int) =~= self.subscriptions@);
        }
        self.subscriptions = new_subs;
        proof {
            let os = old(self).subscriptions@;
            lemma_subs_without_sorted(os, user_id@, subreddit@);
            assert forall|m: int| 0 <= m < self.subscriptions@.len() implies {
                &&& (#[trigger] self.subscriptions@[m]).valid()
                &&& 1 <= self.subscriptions@[m].id < self.next_id
                &&& spec_has_user(self.users@, self.subscriptions@[m].user_id@)
            } by {
                lemma_subs_without_elem(os, user_id@, subreddit@, m);
                let w = choose|w: int| 0 <= w < os.len() && os[w] == self.subscriptions@[m];
            }
        }
        Ok(())
    }

    /// All subscription rows, in store order.
    pub fn get_subscriptions(&self) -> (r: Result<Vec<Subscription>, StoreError>)
        ensures
            r is Ok,
            r->Ok_0@ == self.subscriptions@,
    {
        let n = self.subscriptions.len();
        let mut out: Vec<Subscription> = Vec::new();
        let mut i: usize = 0;
        while i < n
            invariant
                0 <= i <= n,
                n == self.subscriptions@.len(),
                out@ == self.subscriptions@.take(i as int),
            decreases n - i,
        {
            out.push(self.subscriptions[i].duplicate());
            proof {
                assert(out@ =~= self.subscriptions@.take(i + 1));
            }
            i += 1;
        }
        proof {
            assert(self.subscriptions@.take(n as int) =~= self.subscriptions@);
        }
        Ok(out)
    }

    /// One user's subscription rows, in store order — sorted by subreddit,
    /// since the store keeps its rows sorted.
    pub fn get_user_subscriptions(&self, user_id: &str) -> (r: Result<
        Vec<Subscription>,
        StoreError,
    >)
        ensures
            r is Ok,
            r->Ok_0@ == subs_of(self.subscriptions@, user_id@),
    {
        let key: String = user_id.to_owned();
        let n = self.subscriptions.len();
        let mut out: Vec<Subscription> = Vec::new();
        let mut i: usize = 0;
        while i < n
            invariant
                0 <= i <= n,
                n == self.subscriptions@.len(),
                key@ == user_id@,
                out@ == subs_of(self.subscriptions@.take(i as int), user_id@),
            decreases n - i,
        {
            proof {
                assert(self.subscriptions@.take(i + 1).drop_last() =~= self.subscriptions@.take(
                    i as int,
                ));
                assert(self.subscriptions@.take(i + 1).last() == self.subscriptions@[i as int]);
            }
            if self.subscriptions[i].user_id.eq(&key) {
                out.push(self.subscriptions[i].duplicate());
            }
            i += 1;
        }
        proof {
            assert(self.subscriptions@.take(n as int) =~= self.subscriptions@);
        }
        Ok(out)
    }

    /// Inserts a subscription row at its sorted position. A duplicate
    /// (user, subreddit) pair is a unique violation; a missing user a
    /// foreign-key violation. The new row starts with no delivery stamp:
    /// only the delivery pipeline ever sets one.
    pub fn subscribe(
        &mut self,
        user_id: &str,
        subreddit: &str,
        send_on: i32,
        send_at: i32,
    ) -> (r: Result<Subscription, StoreError>)
        requires
            old(self).inv(),
            0 <= send_on < 7,
            0 <= send_at < 24,
        ensures
            final(self).inv(),
            final(self).users@ == old(self).users@,
            final(self).dialogs@ == old(self).dialogs@,
            r is Err ==> final(self).subscriptions@ == old(self).subscriptions@ && final(self).next_id
                == old(self).next_id,
            (r matches Err(StoreError::UniqueViolation(_))) <==> spec_has_sub(
                old(self).subscriptions@,
                user_id@,
                subreddit@,
            ),
            r matches Err(StoreError::UniqueViolation(m)) ==> m@
                == "UNIQUE constraint failed: users_subscriptions.user_id, users_subscriptions.subreddit"@,
            (r matches Err(StoreError::ForeignKeyViolation(_))) <==> !spec_has_user(
                old(self).users@,
                user_id@,
            ),
            r matches Err(StoreError::ForeignKeyViolation(m)) ==> m@
                == "FOREIGN KEY constraint failed"@,
            r is Ok <==> (spec_has_user(old(self).users@, user_id@) && !spec_has_sub(
                old(self).subscriptions@,
                user_id@,
                subreddit@,
            ) && old(self).next_id < i32::MAX),
            r is Ok ==> {
                &&& r->Ok_0.id == old(self).next_id
                &&& r->Ok_0.user_id@ == user_id@
                &&& r->Ok_0.subreddit@ == subreddit@
                &&& r->Ok_0.send_on == send_on
                &&& r->Ok_0.send_at == send_at
                &&& r->Ok_0.last_sent_at is None
                &&& final(self).next_id == old(self).next_id + 1
                &&& exists|p: int|
                    0 <= p <= old(self).subscriptions@.len() && final(self).subscriptions@ == old(
                        self,
                    ).subscriptions@.insert(p, r->Ok_0)
                &&& spec_has_sub(final(self).subscriptions@, user_id@, subreddit@)
            },
    {
        let ukey: String = user_id.to_owned();
        let tkey: String = subreddit.to_owned();
        let n = self.subscriptions.len();
        let mut p: usize = 0;
        let mut stop = false;
        while !stop && p < n
            invariant
                0 <= p <= n,
                ukey@ == user_id@,
                tkey@ == subreddit@,
                n == self.subscriptions@.len(),
                forall|k: int|
                    0 <= k < p ==> key_lt_pair(
                        #[trigger] self.subscriptions@[k],
                        user_id@,
                        subreddit@,
                    ),
                stop ==> p < n && !key_lt_pair(
                    self.subscriptions@[p as int],
                    user_id@,
                    subreddit@,
                ),
            decreases n - p, (if stop { 0int } else { 1int }),
        {
            let row_lt = str_lt(&self.subscriptions[p].user_id, &ukey) || (
            self.subscriptions[p].user_id.eq(&ukey) && str_lt(
                &self.subscriptions[p].subreddit,
                &tkey,
            ));
            if row_lt {
                p += 1;
            } else {
                stop = true;
            }
        }
        // Everything before `p` sorts strictly below the pair, and the row
        // at `p` does not, so a duplicate can only sit at `p` itself.
        let dup = p < n && self.subscriptions[p].user_id.eq(&ukey) && self.subscriptions[p]
            .subreddit.eq(&tkey);
        proof {
            assert forall|k: int|
                0 <= k < p implies !((#[trigger] self.subscriptions@[k]).user_id@ == user_id@
                && self.subscriptions@[k].subreddit@ == subreddit@) by {
                if self.subscriptions@[k].user_id@ == user_id@ && self.subscriptions@[k].subreddit@
                    == subreddit@ {
                    assert(key_lt_pair(self.subscriptions@[k], user_id@, subreddit@));
                    assert(lex_lt(user_id@, user_id@) || lex_lt(subreddit@, subreddit@));
                    assert(false);
                }
            }
            if !dup && spec_has_sub(self.subscriptions@, user_id@, subreddit@) {
                let k = choose|k: int|
                    0 <= k < self.subscriptions@.len() && self.subscriptions@[k].user_id@
                        == user_id@ && self.subscriptions@[k].subreddit@ == subreddit@;
                assert(p <= k);
                assert(k != p);
                assert(p < k);
                assert(p < n);
                assert(stop);
                assert(sub_key_lt(self.subscriptions@[p as int], self.subscriptions@[k]));
                assert(key_lt_pair(self.subscriptions@[p as int], user_id@, subreddit@));
                assert(false);
            }
        }
        if dup {
            return Err(
                StoreError::UniqueViolation(
                    "UNIQUE constraint failed: users_subscriptions.user_id, users_subscriptions.subreddit".to_owned(),
                ),
            );
        }
        if self.find_user_idx(&ukey).is_none() {
            return Err(StoreError::ForeignKeyViolation("FOREIGN KEY constraint failed".to_owned()));
        }
        if self.next_id == i32::MAX {
            return Err(StoreError::Other("subscription id space exhausted".to_owned()));
        }
        let fresh = NewSubscription {
            user_id: ukey,
            subreddit: tkey,
            send_on,
            send_at,
            last_sent_at: None,
        };
        let row = Subscription {
            id: self.next_id,
            user_id: fresh.user_id,
            subreddit: fresh.subreddit,
            last_sent_at: fresh.last_sent_at,
            send_on: fresh.send_on,
            send_at: fresh.send_at,
        };
        let out = row.duplicate();
        self.subscriptions.insert(p, row);
        self.next_id = self.next_id + 1;
        proof {
            let os = old(self).subscriptions@;
            let ns = self.subscriptions@;
            assert(ns == os.insert(p as int, out));
            assert(ns[p as int] == out);
            assert(forall|k: int| 0 <= k < p ==> ns[k] == os[k]);
            assert(forall|k: int| p < k < ns.len() ==> ns[k] == os[k - 1]);
            assert forall|m: int| p <= m < os.len() implies sub_key_lt(
                out,
                #[trigger] os[m],
            ) by {
                assert(stop && p < n);
                assert(!key_lt_pair(os[p as int], user_id@, subreddit@));
                assert(!sub_key_lt(os[p as int], out));
                assert(!(os[p as int].user_id@ == user_id@ && os[p as int].subreddit@
                    == subreddit@));
                lemma_key_total(os[p as int], out);
                if m > p {
                    assert(sub_key_lt(os[p as int], os[m]));
                    lemma_key_trans(out, os[p as int], os[m]);
                }
            }
            assert forall|m: int| 0 <= m < p implies sub_key_lt(#[trigger] os[m], out) by {
                assert(key_lt_pair(os[m], user_id@, subreddit@));
            }
            assert forall|a: int, b: int| 0 <= a < b < ns.len() implies sub_key_lt(
                #[trigger] ns[a],
                #[trigger] ns[b],
            ) by {
                if b == p {
                    assert(ns[a] == os[a] && sub_key_lt(os[a], out));
                } else if a == p {
                    assert(ns[b] == os[b - 1] && sub_key_lt(out, os[b - 1]));
                } else if a < p && b > p {
                    assert(ns[a] == os[a] && ns[b] == os[b - 1]);
                    assert(sub_key_lt(os[a], out));
                    assert(sub_key_lt(out, os[b - 1]));
                    lemma_key_trans(os[a], out, os[b - 1]);
                } else {
                    assert(sub_key_lt(os[if a < p { a } else { a - 1 }], os[if b < p { b } else {
                        b - 1
                    }]));
                }
            }
            assert(spec_has_sub(ns, user_id@, subreddit@)) by {
                assert(ns[p as int].user_id@ == user_id@ && ns[p as int].subreddit@ == subreddit@);
            }
        }
        Ok(out)
    }

    /// The stored dialog row of a user, when one exists.
    pub fn get_users_dialog(&self, user_id: &str) -> (r: Result<DialogEntity, StoreError>)
        requires
            self.inv(),
        ensures
            r is Ok <==> spec_has_dialog(self.dialogs@, user_id@),
            r is Ok ==> find_dialog(self.dialogs@, user_id@) == Some(r->Ok_0) && r->Ok_0.user_id@
                == user_id@,
            r is Err ==> r == Err::<DialogEntity, StoreError>(StoreError::NotFound),
    {
        let key: String = user_id.to_owned();
        match self.find_dialog_idx(&key) {
            Some(i) => {
                proof {
                    lemma_find_dialog_at(self.dialogs@, user_id@, i as int);
                }
                Ok(self.dialogs[i].duplicate())
            },
            None => Err(StoreError::NotFound),
        }
    }

    /// Writes a user's dialog row with replace semantics; a row for a user
    /// the store does not know is a foreign-key violation.
    pub fn insert_or_update_dialog(&mut self, dialog: &DialogEntity) -> (r: Result<
        (),
        StoreError,
    >)
        requires
            old(self).inv(),
        ensures
            final(self).inv(),
            final(self).users@ == old(self).users@,
            final(self).subscriptions@ == old(self).subscriptions@,
            final(self).next_id == old(self).next_id,
            r is Err <==> !spec_has_user(old(self).users@, dialog.user_id@),
            r is Err ==> final(self).dialogs@ == old(self).dialogs@ && (r matches Err(
                StoreError::ForeignKeyViolation(m),
            ) && m@ == "FOREIGN KEY constraint failed"@),
            r is Ok ==> final(self).dialogs@ == dialogs_without(
                old(self).dialogs@,
                dialog.user_id@,
            ).push(*dialog),
    {
        if self.find_user_idx(&dialog.user_id).is_none() {
            return Err(StoreError::ForeignKeyViolation("FOREIGN KEY constraint failed".to_owned()));
        }
        let dn = self.dialogs.len();
        let mut new_dialogs: Vec<DialogEntity> = Vec::new();
        let mut k: usize = 0;
        while k < dn
            invariant
                0 <= k <= dn,
                dn == self.dialogs@.len(),
                new_dialogs@ == dialogs_without(self.dialogs@.take(k as int), dialog.user_id@),
            decreases dn - k,
        {
            proof {
                assert(self.dialogs@.take(k + 1).drop_last() =~= self.dialogs@.take(k as int));
                assert(self.dialogs@.take(k + 1).last() == self.dialogs@[k as int]);
            }
            if !self.dialogs[k].user_id.eq(&dialog.user_id) {
                new_dialogs.push(self.dialogs[k].duplicate());
            }
            k += 1;
        }
        proof {
            assert(self.dialogs@.take(dn as int) =~= self.dialogs@);
        }
        new_dialogs.push(dialog.duplicate());
        self.dialogs = new_dialogs;
        proof {
            let od = old(self).dialogs@;
            let u = dialog.user_id@;
            lemma_dialogs_without_distinct(od, u);
            let f = dialogs_without(od, u);
            assert forall|a: int, b: int|
                0 <= a < b < self.dialogs@.len() implies (#[trigger] self.dialogs@[a]).user_id@
                != (#[trigger] self.dialogs@[b]).user_id@ by {
                if b == self.dialogs@.len() - 1 {
                    lemma_dialogs_without_elem(od, u, a);
                } else {
                    assert(self.dialogs@[a] == f[a] && self.dialogs@[b] == f[b]);
                }
            }
            assert forall|m: int| 0 <= m < self.dialogs@.len() implies spec_has_user(
                self.users@,
                (#[trigger] self.dialogs@[m]).user_id@,
            ) by {
                if m < self.dialogs@.len() - 1 {
                    lemma_dialogs_without_elem(od, u, m);
                    let w = choose|w: int| 0 <= w < od.len() && od[w] == self.dialogs@[m];
                }
            }
        }
        Ok(())
    }

    /// Deletes a user's dialog row; an absent row deletes to success.
    pub fn delete_dialog(&mut self, user_id: &str) -> (r: Result<(), StoreError>)
        requires
            old(self).inv(),
        ensures
            final(self).inv(),
            r is Ok,
            final(self).users@ == old(self).users@,
            final(self).subscriptions@ == old(self).subscriptions@,
            final(self).next_id == old(self).next_id,
            final(self).dialogs@ == dialogs_without(old(self).dialogs@, user_id@),
    {
        let key: String = user_id.to_owned();
        let dn = self.dialogs.len();
        let mut new_dialogs: Vec<DialogEntity> = Vec::new();
        let mut k: usize = 0;
        while k < dn
            invariant
                0 <= k <= dn,
                key@ == user_id@,
                dn == self.dialogs@.len(),
                new_dialogs@ == dialogs_without(self.dialogs@.take(k as int), user_id@),
            decreases dn - k,
        {
            proof {
                assert(self.dialogs@.take(k + 1).drop_last() =~= self.dialogs@.take(k as int));
                assert(self.dialogs@.take(k + 1).last() == self.dialogs@[k as int]);
            }
            if !self.dialogs[k].user_id.eq(&key) {
                new_dialogs.push(self.dialogs[k].duplicate());
            }
            k += 1;
        }
        proof {
            assert(self.dialogs@.take(dn as int) =~= self.dialogs@);
        }
        self.dialogs = new_dialogs;
        proof {
            let od = old(self).dialogs@;
            lemma_dialogs_without_distinct(od, user_id@);
            assert forall|m: int| 0 <= m < self.dialogs@.len() implies spec_has_user(
                self.users@,
                (#[trigger] self.dialogs@[m]).user_id@,
            ) by {
                lemma_dialogs_without_elem(od, user_id@, m);
                let w = choose|w: int| 0 <= w < od.len() && od[w] == self.dialogs@[m];
            }
        }
        Ok(())
    }

    /// Stamps one subscription row, found by id, as delivered at `now`.
    /// An absent id updates nothing and still succeeds.
    pub fn update_last_sent(&mut self, id: i32, now: Timestamp) -> (r: Result<(), StoreError>)
        requires
            old(self).inv(),
        ensures
            final(self).inv(),
            r is Ok,
            final(self).users@ == old(self).users@,
            final(self).dialogs@ == old(self).dialogs@,
            final(self).next_id == old(self).next_id,
            final(self).subscriptions@.len() == old(self).subscriptions@.len(),
            forall|i: int|
                0 <= i < old(self).subscriptions@.len() ==> #[trigger] final(self).subscriptions@[i]
                    == if old(self).subscriptions@[i].id == id {
                    Subscription {
                        last_sent_at: Some(now),
                        ..old(self).subscriptions@[i]
                    }
                } else {
                    old(self).subscriptions@[i]
                },
    {
        let n = self.subscriptions.len();
        let mut i: usize = 0;
        while i < n
            invariant
                0 <= i <= n,
                old(self).inv(),
                n == self.subscriptions@.len(),
                self.users@ == old(self).users@,
                self.dialogs@ == old(self).dialogs@,
                self.next_id == old(self).next_id,
                forall|k: int|
                    0 <= k < n ==> #[trigger] self.subscriptions@[k] == if k < i && old(
                        self,
                    ).subscriptions@[k].id == id {
                        Subscription {
                            last_sent_at: Some(now),
                            ..old(self).subscriptions@[k]
                        }
                    } else {
                        old(self).subscriptions@[k]
                    },
            decreases n - i,
        {
            if self.subscriptions[i].id == id {
                let row = Subscription {
                    id: self.subscriptions[i].id,
                    user_id: self.subscriptions[i].user_id.clone(),
                    subreddit: self.subscriptions[i].subreddit.clone(),
                    last_sent_at: Some(now),
                    send_on: self.subscriptions[i].send_on,
                    send_at: self.subscriptions[i].send_at,
                };
                self.subscriptions[i] = row;
            }
            i += 1;
        }
        proof {
            assert forall|a: int, b: int|
                0 <= a < b < self.subscriptions@.len() implies sub_key_lt(
                #[trigger] self.subscriptions@[a],
                #[trigger] self.subscriptions@[b],
            ) by {
                assert(sub_key_lt(old(self).subscriptions@[a], old(self).subscriptions@[b]));
            }
        }
        Ok(())
    }
}

} // verus!
