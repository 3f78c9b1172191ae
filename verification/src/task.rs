//! The scheduler's decisions: which subscriptions are due at an instant,
//! and the digest text a delivery sends. The surrounding loop — fetching,
//! sending, sleeping, restarting on a crash — runs outside the crate and
//! only performs what these functions decide.

use vstd::prelude::*;

use crate::models::Subscription;
use crate::reddit::Post;
use crate::store::DbClient;
use crate::time::{spec_same_date, same_date, Timestamp};

verus! {

/// The due rule: the configured weekday, at or after the configured hour,
/// and not yet delivered on this calendar day. A subscription that missed
/// its hour stays eligible for the rest of the day; one already delivered
/// today does not come due again before the next day.
pub open spec fn spec_is_due(sub: Subscription, now: Timestamp) -> bool {
    &&& now.weekday as int == sub.send_on as int
    &&& now.hour as int >= sub.send_at as int
    &&& match sub.last_sent_at {
        None => true,
        Some(t) => !spec_same_date(t, now),
    }
}

/// Decides the due rule for one subscription.
pub fn is_due(sub: &Subscription, now: &Timestamp) -> (r: bool)
    requires
        sub.valid(),
        now.valid(),
    ensures
        r == spec_is_due(*sub, *now),
{
    if now.weekday != sub.send_on as u32 {
        return false;
    }
    if now.hour < sub.send_at as u32 {
        return false;
    }
    match &sub.last_sent_at {
        None => true,
        Some(t) => !same_date(t, now),
    }
}

/// The subscriptions due at `now`, in store order.
pub open spec fn spec_due_list(subs: Seq<Subscription>, now: Timestamp) -> Seq<Subscription>
    decreases subs.len(),
{
    if subs.len() == 0 {
        subs
    } else {
        let rest = spec_due_list(subs.drop_last(), now);
        if spec_is_due(subs.last(), now) {
            rest.push(subs.last())
        } else {
            rest
        }
    }
}

/// A row is in the due list exactly when it is a row of the store that the
/// due rule selects.
pub proof fn lemma_due_list_elems(subs: Seq<Subscription>, now: Timestamp, s: Subscription)
    ensures
        spec_due_list(subs, now).contains(s) <==> (subs.contains(s) && spec_is_due(s, now)),
    decreases subs.len(),
{
    let out = spec_due_list(subs, now);
    if subs.len() > 0 {
        let rest = spec_due_list(subs.drop_last(), now);
        lemma_due_list_elems(subs.drop_last(), now, s);
        if subs.drop_last().contains(s) {
            let k = choose|k: int| 0 <= k < subs.drop_last().len() && subs.drop_last()[k] == s;
            assert(subs[k] == s);
        }
        if out.contains(s) {
            let k = choose|k: int| 0 <= k < out.len() && out[k] == s;
            if spec_is_due(subs.last(), now) && k == out.len() - 1 {
                assert(subs[subs.len() - 1] == s);
            } else {
                assert(rest[k] == s);
            }
        }
        if subs.contains(s) && spec_is_due(s, now) {
            let k = choose|k: int| 0 <= k < subs.len() && subs[k] == s;
            if k < subs.len() - 1 {
                assert(subs.drop_last()[k] == s);
                let j = choose|j: int| 0 <= j < rest.len() && rest[j] == s;
                assert(out[j] == s);
            } else {
                assert(out[out.len() - 1] == s);
            }
        }
    }
}

/// Scans all subscriptions and returns the ones due at `now` — the
/// decision half of one scheduler iteration.
pub fn due_subscriptions(db: &DbClient, now: &Timestamp) -> (r: Vec<Subscription>)
    requires
        db.inv(),
        now.valid(),
    ensures
        r@ == spec_due_list(db.subscriptions@, *now),
{
    let n = db.subscriptions.len();
    let mut out: Vec<Subscription> = Vec::new();
    let mut i: usize = 0;
    while i < n
        invariant
            0 <= i <= n,
            db.inv(),
            now.valid(),
            n == db.subscriptions@.len(),
            out@ == spec_due_list(db.subscriptions@.take(i as int), *now),
        decreases n - i,
    {
        proof {
            assert(db.subscriptions@.take(i + 1).drop_last() =~= db.subscriptions@.take(i as int));
            assert(db.subscriptions@.take(i + 1).last() == db.subscriptions@[i as int]);
        }
        if is_due(&db.subscriptions[i], now) {
            out.push(db.subscriptions[i].duplicate());
        }
        i += 1;
    }
    proof {
        assert(db.subscriptions@.take(n as int) =~= db.subscriptions@);
    }
    out
}

/// The digest text: a header naming the topic, then a title-and-permalink
/// block per item. A topic with no items still has its header.
pub open spec fn spec_digest(topic: Seq<char>, posts: Seq<Post>) -> Seq<char>
    decreases posts.len(),
{
    if posts.len() == 0 {
        "Weekly popular posts from: \""@ + topic + "\"\n\n"@
    } else {
        spec_digest(topic, posts.drop_last()) + posts.last().spec_line() + "\n"@
    }
}

/// Renders the digest for a topic.
pub fn digest_message(subreddit: &str, posts: &Vec<Post>) -> (r: String)
    ensures
        r@ == spec_digest(subreddit@, posts@),
{
    let mut m = String::from_str("Weekly popular posts from: \"");
    m.append(subreddit);
    m.append("\"\n\n");
    let n = posts.len();
    let mut i: usize = 0;
    while i < n
        invariant
            0 <= i <= n,
            n == posts@.len(),
            m@ == spec_digest(subreddit@, posts@.take(i as int)),
        decreases n - i,
    {
        proof {
            assert(posts@.take(i + 1).drop_last() =~= posts@.take(i as int));
            assert(posts@.take(i + 1).last() == posts@[i as int]);
        }
        m.append(posts[i].title.as_str());
        m.push('\n');
        m.append(posts[i].link.as_str());
        m.push('\n');
        m.push('\n');
        proof {
            reveal_strlit("\n");
            assert("\n"@ =~= seq!['\n']);
            assert(m@ =~= spec_digest(subreddit@, posts@.take(i + 1)));
        }
        i += 1;
    }
    proof {
        assert(posts@.take(n as int) =~= posts@);
    }
    m
}

/// Once a delivery is recorded, the subscription does not come due again
/// within the same calendar day.
pub proof fn lemma_once_per_day(sub: Subscription, now: Timestamp, later: Timestamp)
    requires
        sub.last_sent_at == Some(now),
        spec_same_date(now, later),
    ensures
        !spec_is_due(sub, later),
{
}

} // verus!
