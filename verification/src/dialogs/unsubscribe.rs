//! The unsubscribe conversation: offer the user's topics as buttons, then
//! delete the chosen subscription. A user with nothing to unsubscribe gets
//! told so at once, and no dialog row is ever written for them.

use vstd::prelude::*;

use crate::dialogs::{
    dec_pairs, decode_pairs, enc_pairs, encode_pairs, keys_distinct, lookup, pair_views,
    Dialog, StepOutcome,
};
use crate::errors::BotError;
use crate::models::{DialogEntity, Subscription};
use crate::store::{
    dialogs_without, lemma_subs_of_elem, spec_has_user, subs_of, subs_without, DbClient,
};
use crate::telegram::{
    build_inline_keyboard_markup, spec_chunk_rows, text_message, InlineKeyboardButton, Message,
    ReplyMarkup,
};

verus! {

/// The steps of the unsubscribe conversation.
#[derive(Debug, Clone, Copy, PartialEq, Eq, Hash, Structural)]
pub enum Unsubscribe {
    Start,
    Subreddit,
}

pub open spec fn spec_step_name(st: Unsubscribe) -> Seq<char> {
    match st {
        Unsubscribe::Start => "Start"@,
        Unsubscribe::Subreddit => "Subreddit"@,
    }
}

pub open spec fn spec_step_of(s: Seq<char>) -> Option<Unsubscribe> {
    if s == "Start"@ {
        Some(Unsubscribe::Start)
    } else if s == "Subreddit"@ {
        Some(Unsubscribe::Subreddit)
    } else {
        None
    }
}

/// Renders a step's persisted name.
pub fn step_name(st: Unsubscribe) -> (r: String)
    ensures
        r@ == spec_step_name(st),
{
    match st {
        Unsubscribe::Start => "Start".to_owned(),
        Unsubscribe::Subreddit => "Subreddit".to_owned(),
    }
}

/// Reads a persisted step name back.
pub fn step_of_name(s: &String) -> (r: Option<Unsubscribe>)
    ensures
        r == spec_step_of(s@),
{
    let a = String::from_str("Start");
    let b = String::from_str("Subreddit");
    if s.eq(&a) {
        Some(Unsubscribe::Start)
    } else if s.eq(&b) {
        Some(Unsubscribe::Subreddit)
    } else {
        None
    }
}

/// The persisted name/payload pairs of the stored step data.
pub open spec fn named_pairs(data: Seq<(Unsubscribe, String)>) -> Seq<(Seq<char>, Seq<char>)> {
    Seq::new(data.len(), |i: int| (spec_step_name(data[i].0), data[i].1@))
}

/// Whether decoded pairs name known, pairwise-distinct steps.
pub open spec fn good_pairs(ps: Seq<(Seq<char>, Seq<char>)>) -> bool {
    &&& forall|i: int| 0 <= i < ps.len() ==> spec_step_of((#[trigger] ps[i]).0) is Some
    &&& forall|i: int, j: int| 0 <= i < j < ps.len() ==> (#[trigger] ps[i]).0 != (#[trigger] ps[j]).0
}

impl Dialog<Unsubscribe> {
    /// Step payloads are stored at most once per step.
    pub open spec fn wf(self) -> bool {
        keys_distinct(self.data@)
    }

    /// A fresh conversation at its start step.
    pub fn new(user_id: String) -> (r: Dialog<Unsubscribe>)
        ensures
            r.command@ == "/unsubscribe"@,
            r.user_id == user_id,
            r.current_step == Unsubscribe::Start,
            r.data@.len() == 0,
            r.wf(),
    {
        Dialog {
            command: "/unsubscribe".to_owned(),
            user_id,
            current_step: Unsubscribe::Start,
            data: Vec::new(),
        }
    }

    /// Stores a step's payload, replacing any earlier one.
    fn data_insert(&mut self, k: Unsubscribe, v: String)
        requires
            old(self).wf(),
        ensures
            final(self).wf(),
            final(self).command == old(self).command,
            final(self).user_id == old(self).user_id,
            final(self).current_step == old(self).current_step,
            lookup(final(self).data@, k) == Some::<Seq<char>>(v@),
            forall|k2: Unsubscribe| k2 != k ==> lookup(final(self).data@, k2) == lookup(
                old(self).data@,
                k2,
            ),
    {
        let n = self.data.len();
        let mut i: usize = 0;
        while i < n
            invariant
                0 <= i <= n,
                n == self.data@.len(),
                old(self).wf(),
                self.command == old(self).command,
                self.user_id == old(self).user_id,
                self.current_step == old(self).current_step,
                self.data@ == old(self).data@,
                forall|m: int| 0 <= m < i ==> (#[trigger] self.data@[m]).0 != k,
            decreases n - i,
        {
            if self.data[i].0 == k {
                self.data[i] = (k, v);
                proof {
                    assert(forall|m: int|
                        0 <= m < self.data@.len() ==> (#[trigger] self.data@[m]).0 == old(
                            self,
                        ).data@[m].0);
                    lemma_lookup_first(self.data@, k, i as int);
                    assert forall|k2: Unsubscribe| k2 != k implies lookup(self.data@, k2)
                        == lookup(old(self).data@, k2) by {
                        lemma_lookup_same(old(self).data@, self.data@, k, k2);
                    }
                }
                return ;
            }
            i += 1;
        }
        self.data.push((k, v));
        proof {
            lemma_lookup_first(self.data@, k, self.data@.len() - 1);
            assert forall|k2: Unsubscribe| k2 != k implies lookup(self.data@, k2) == lookup(
                old(self).data@,
                k2,
            ) by {
                lemma_lookup_push(old(self).data@, k, v, k2);
            }
        }
    }

    /// The persisted row of this conversation.
    pub fn into_entity(&self) -> (e: DialogEntity)
        ensures
            e.user_id == self.user_id,
            e.command == self.command,
            e.step@ == spec_step_name(self.current_step),
            e.data@ == enc_pairs(named_pairs(self.data@)),
    {
        let n = self.data.len();
        let mut pairs: Vec<(String, String)> = Vec::new();
        let mut i: usize = 0;
        proof {
            assert(pair_views(pairs@) =~= named_pairs(self.data@.take(0)));
        }
        while i < n
            invariant
                0 <= i <= n,
                n == self.data@.len(),
                pair_views(pairs@) == named_pairs(self.data@.take(i as int)),
            decreases n - i,
        {
            let ghost prev = pairs@;
            pairs.push((step_name(self.data[i].0), self.data[i].1.clone()));
            proof {
                let t0 = self.data@.take(i as int);
                let t1 = self.data@.take(i + 1);
                assert(forall|m: int| 0 <= m < i ==> t1[m] == t0[m]);
                assert(t1[i as int] == self.data@[i as int]);
                assert(pair_views(prev).len() == prev.len());
                assert(named_pairs(t0).len() == t0.len());
                assert(prev.len() == i);
                assert(pairs@.len() == i + 1);
                assert forall|m: int| 0 <= m < i + 1 implies pair_views(pairs@)[m] == named_pairs(
                    t1,
                )[m] by {
                    if m < i {
                        assert(pairs@[m] == prev[m]);
                        assert(pair_views(prev)[m] == named_pairs(t0)[m]);
                    } else {
                        assert(pairs@[m].0@ == spec_step_name(self.data@[m].0));
                        assert(pairs@[m].1@ == self.data@[m].1@);
                    }
                }
                assert(pair_views(pairs@) =~= named_pairs(t1));
            }
            i += 1;
        }
        proof {
            assert(self.data@.take(n as int) =~= self.data@);
        }
        let data = encode_pairs(&pairs);
        DialogEntity {
            user_id: self.user_id.clone(),
            command: self.command.clone(),
            step: step_name(self.current_step),
            data,
        }
    }

    /// Rebuilds a conversation from its persisted row; a row whose step or
    /// data no well-formed conversation produces is malformed.
    pub fn from_entity(e: &DialogEntity) -> (r: Result<Dialog<Unsubscribe>, BotError>)
        ensures
            match r {
                Ok(d) => {
                    &&& d.user_id == e.user_id
                    &&& d.command == e.command
                    &&& spec_step_name(d.current_step) == e.step@
                    &&& dec_pairs(e.data@) == Some(named_pairs(d.data@))
                    &&& d.wf()
                },
                Err(err) => {
                    &&& err == BotError::MalformedState
                    &&& (spec_step_of(e.step@) is None || dec_pairs(e.data@) is None || !good_pairs(
                        dec_pairs(e.data@)->0,
                    ))
                },
            },
    {
        let step = match step_of_name(&e.step) {
            Some(st) => st,
            None => {
                return Err(BotError::MalformedState);
            },
        };
        let pairs = match decode_pairs(e.data.as_str()) {
            Some(ps) => ps,
            None => {
                return Err(BotError::MalformedState);
            },
        };
        let ghost dps = pair_views(pairs@);
        proof {
            assert(dps.len() == pairs@.len());
        }
        let n = pairs.len();
        let mut data: Vec<(Unsubscribe, String)> = Vec::new();
        let mut i: usize = 0;
        while i < n
            invariant
                0 <= i <= n,
                n == pairs@.len(),
                dps == pair_views(pairs@),
                dps.len() == n,
                dec_pairs(e.data@) == Some(dps),
                spec_step_of(e.step@) == Some(step),
                data@.len() == i,
                forall|m: int|
                    0 <= m < i ==> spec_step_of(dps[m].0) == Some((#[trigger] data@[m]).0)
                        && data@[m].1@ == dps[m].1,
                keys_distinct(data@),
            decreases n - i,
        {
            let st = match step_of_name(&pairs[i].0) {
                Some(st) => st,
                None => {
                    proof {
                        assert(dps[i as int].0 == pairs@[i as int].0@);
                        assert(!good_pairs(dps));
                    }
                    return Err(BotError::MalformedState);
                },
            };
            // A step stored twice is corrupt data, not something to merge.
            let mut m: usize = 0;
            while m < i
                invariant
                    0 <= m <= i < n,
                    n == pairs@.len(),
                    dps == pair_views(pairs@),
                    dps.len() == n,
                    dec_pairs(e.data@) == Some(dps),
                    spec_step_of(e.step@) == Some(step),
                    data@.len() == i,
                    keys_distinct(data@),
                    spec_step_of(dps[i as int].0) == Some(st),
                    forall|w: int|
                        0 <= w < i ==> spec_step_of(dps[w].0) == Some((#[trigger] data@[w]).0)
                            && data@[w].1@ == dps[w].1,
                    forall|w: int| 0 <= w < m ==> (#[trigger] data@[w]).0 != st,
                decreases i - m,
            {
                if data[m].0 == st {
                    proof {
                        assert(spec_step_of(dps[m as int].0) == Some(data@[m as int].0));
                        lemma_step_name_of(dps[m as int].0);
                        lemma_step_name_of(dps[i as int].0);
                        assert(dps[m as int].0 == spec_step_name(data@[m as int].0));
                        assert(dps[i as int].0 == spec_step_name(st));
                        assert(dps[m as int].0 == dps[i as int].0);
                        assert(!good_pairs(dps)) by {
                            if good_pairs(dps) {
                                assert((m as int) < (i as int) && (i as int) < dps.len());
                                assert((dps[m as int]).0 != (dps[i as int]).0);
                            }
                        }
                    }
                    return Err(BotError::MalformedState);
                }
                m += 1;
            }
            data.push((st, pairs[i].1.clone()));
            i += 1;
        }
        proof {
            assert(named_pairs(data@) =~= dps) by {
                assert forall|w: int| 0 <= w < n implies (named_pairs(data@)[w]) == dps[w] by {
                    assert(spec_step_of(dps[w].0) == Some(data@[w].0));
                    lemma_step_name_of(dps[w].0);
                }
            }
        }
        Ok(
            Dialog {
                command: e.command.clone(),
                user_id: e.user_id.clone(),
                current_step: step,
                data,
            },
        )
    }

    /// Advances the conversation by one inbound payload.
    ///
    /// At `Start`: a user with no subscriptions is told so and nothing is
    /// persisted; otherwise the topics become a two-per-row button grid and
    /// the conversation is persisted at `Subreddit`. At `Subreddit`: the
    /// named subscription row is deleted, the deletion is confirmed, and
    /// the dialog row is removed.
    pub fn handle_current_step(&mut self, db: &mut DbClient, payload: &str) -> (r: Result<
        StepOutcome,
        BotError,
    >)
        requires
            old(self).wf(),
            old(db).inv(),
        ensures
            final(db).inv(),
            final(self).wf(),
            final(self).user_id == old(self).user_id,
            lookup(final(self).data@, old(self).current_step) == Some::<Seq<char>>(payload@),
            forall|k2: Unsubscribe|
                k2 != old(self).current_step ==> lookup(final(self).data@, k2) == lookup(
                    old(self).data@,
                    k2,
                ),
            r is Ok,
            r->Ok_0.deliveries@.len() == 0,
            old(self).current_step == Unsubscribe::Start && subs_of(
                old(db).subscriptions@,
                old(self).user_id@,
            ).len() == 0 ==> {
                &&& final(db).users@ == old(db).users@
                &&& final(db).subscriptions@ == old(db).subscriptions@
                &&& final(db).dialogs@ == old(db).dialogs@
                &&& final(db).next_id == old(db).next_id
                &&& r->Ok_0.messages@.len() == 1
                &&& r->Ok_0.messages@[0].chat_id@ == old(self).user_id@
                &&& r->Ok_0.messages@[0].text@ == "You have no subscriptions to unsubscribe from"@
            },
            old(self).current_step == Unsubscribe::Start && subs_of(
                old(db).subscriptions@,
                old(self).user_id@,
            ).len() > 0 ==> {
                &&& final(db).users@ == old(db).users@
                &&& final(db).subscriptions@ == old(db).subscriptions@
                &&& final(db).next_id == old(db).next_id
                &&& final(self).current_step == Unsubscribe::Subreddit
                &&& exists|e: DialogEntity|
                    {
                        &&& final(db).dialogs@ == dialogs_without(
                            old(db).dialogs@,
                            old(self).user_id@,
                        ).push(e)
                        &&& e.user_id@ == old(self).user_id@
                        &&& e.command@ == old(self).command@
                        &&& e.step@ == "Subreddit"@
                        &&& e.data@ == enc_pairs(named_pairs(final(self).data@))
                    }
                &&& r->Ok_0.messages@.len() == 1
                &&& r->Ok_0.messages@[0].chat_id@ == old(self).user_id@
                &&& r->Ok_0.messages@[0].text@ == "Select subreddit"@
                &&& (r->Ok_0.messages@[0].reply_markup matches Some(
                    ReplyMarkup::InlineKeyboardMarkup(k),
                ) && (exists|bs: Seq<InlineKeyboardButton>|
                    {
                        let subs = subs_of(old(db).subscriptions@, old(self).user_id@);
                        &&& #[trigger] bs.len() == subs.len()
                        &&& (forall|i: int|
                            0 <= i < bs.len() ==> bs[i].text@ == subs[i].subreddit@
                                && bs[i].callback_data@ == subs[i].subreddit@)
                        &&& k.inline_keyboard@.len() == spec_chunk_rows(bs, 2).len()
                        &&& (forall|i: int|
                            0 <= i < k.inline_keyboard@.len() ==> k.inline_keyboard@[i]@
                                == spec_chunk_rows(bs, 2)[i])
                    }))
            },
            old(self).current_step == Unsubscribe::Subreddit ==> {
                &&& final(db).users@ == old(db).users@
                &&& final(db).next_id == old(db).next_id
                &&& final(db).subscriptions@ == subs_without(
                    old(db).subscriptions@,
                    old(self).user_id@,
                    payload@,
                )
                &&& final(db).dialogs@ == dialogs_without(old(db).dialogs@, old(self).user_id@)
                &&& r->Ok_0.messages@.len() == 1
                &&& r->Ok_0.messages@[0].chat_id@ == old(self).user_id@
                &&& r->Ok_0.messages@[0].text@ == "Unsubscribed from: "@ + payload@
            },
    {
        let step = self.current_step;
        self.data_insert(step, payload.to_owned());
        let mut messages: Vec<Message> = Vec::new();
        let deliveries: Vec<Subscription> = Vec::new();
        match step {
            Unsubscribe::Start => {
                let subs = match db.get_user_subscriptions(self.user_id.as_str()) {
                    Ok(s) => s,
                    Err(e) => {
                        return Err(BotError::DatabaseError(e));
                    },
                };
                if subs.len() == 0 {
                    messages.push(
                        text_message(
                            self.user_id.as_str(),
                            "You have no subscriptions to unsubscribe from".to_owned(),
                        ),
                    );
                    return Ok(StepOutcome { messages, deliveries });
                }
                let mut buttons: Vec<InlineKeyboardButton> = Vec::new();
                let sn = subs.len();
                let mut i: usize = 0;
                while i < sn
                    invariant
                        0 <= i <= sn,
                        sn == subs@.len(),
                        buttons@.len() == i,
                        forall|m: int|
                            0 <= m < i ==> (#[trigger] buttons@[m]).text@ == subs@[m].subreddit@
                                && buttons@[m].callback_data@ == subs@[m].subreddit@,
                    decreases sn - i,
                {
                    buttons.push(
                        InlineKeyboardButton {
                            text: subs[i].subreddit.clone(),
                            callback_data: subs[i].subreddit.clone(),
                        },
                    );
                    i += 1;
                }
                let ghost bviews = buttons@;
                let markup = build_inline_keyboard_markup(buttons, 2);
                self.current_step = Unsubscribe::Subreddit;
                let entity = self.into_entity();
                proof {
                    let u = old(self).user_id@;
                    let s0 = subs_of(old(db).subscriptions@, u);
                    assert(s0.len() > 0);
                    lemma_subs_of_elem(old(db).subscriptions@, u, 0);
                    let w = choose|w: int|
                        0 <= w < old(db).subscriptions@.len() && old(db).subscriptions@[w]
                            == s0[0];
                    assert(spec_has_user(old(db).users@, u));
                }
                match db.insert_or_update_dialog(&entity) {
                    Ok(_) => {},
                    Err(e) => {
                        return Err(BotError::DatabaseError(e));
                    },
                }
                let mut msg = text_message(self.user_id.as_str(), "Select subreddit".to_owned());
                msg.reply_markup = Some(ReplyMarkup::InlineKeyboardMarkup(markup));
                messages.push(msg);
                Ok(StepOutcome { messages, deliveries })
            },
            Unsubscribe::Subreddit => {
                match db.unsubscribe(self.user_id.as_str(), payload) {
                    Ok(_) => {},
                    Err(e) => {
                        return Err(BotError::DatabaseError(e));
                    },
                }
                let mut text = String::from_str("Unsubscribed from: ");
                text.append(payload);
                messages.push(text_message(self.user_id.as_str(), text));
                match db.delete_dialog(self.user_id.as_str()) {
                    Ok(_) => {},
                    Err(e) => {
                        return Err(BotError::DatabaseError(e));
                    },
                }
                Ok(StepOutcome { messages, deliveries })
            },
        }
    }
}

/// The step-name maps invert one another.
pub proof fn lemma_step_name_of(s: Seq<char>)
    requires
        spec_step_of(s) is Some,
    ensures
        spec_step_name(spec_step_of(s)->0) == s,
{
}


/// Entries under other keys keep their `lookup` result when one key's
/// entry is replaced in place.
proof fn lemma_lookup_same(
    data: Seq<(Unsubscribe, String)>,
    data2: Seq<(Unsubscribe, String)>,
    k: Unsubscribe,
    k2: Unsubscribe,
)
    requires
        data2.len() == data.len(),
        forall|m: int| 0 <= m < data.len() ==> (#[trigger] data2[m]).0 == data[m].0,
        forall|m: int| 0 <= m < data.len() && (#[trigger] data[m]).0 != k ==> data2[m].1 == data[m].1,
        k2 != k,
    ensures
        lookup(data2, k2) == lookup(data, k2),
    decreases data.len(),
{
    if data.len() > 0 {
        let r1 = data.skip(1);
        let r2 = data2.skip(1);
        assert(forall|m: int| 0 <= m < r1.len() ==> r1[m] == data[m + 1]);
        assert(forall|m: int| 0 <= m < r2.len() ==> r2[m] == data2[m + 1]);
        lemma_lookup_same(r1, r2, k, k2);
    }
}

/// Appending a new key's entry keeps every other key's `lookup` result.
proof fn lemma_lookup_push(data: Seq<(Unsubscribe, String)>, k: Unsubscribe, v: String, k2: Unsubscribe)
    requires
        k2 != k,
    ensures
        lookup(data.push((k, v)), k2) == lookup(data, k2),
    decreases data.len(),
{
    let d2 = data.push((k, v));
    if data.len() == 0 {
        assert(d2[0].0 == k);
        assert(d2.skip(1) =~= Seq::<(Unsubscribe, String)>::empty());
        assert(d2[0].0 != k2);
        assert(lookup(d2, k2) == lookup(d2.skip(1), k2));
        assert(d2.skip(1).len() == 0);
        assert(lookup(d2.skip(1), k2) is None);
        assert(lookup(data, k2) is None);
    } else {
        assert(d2[0] == data[0]);
        assert(d2.skip(1) =~= data.skip(1).push((k, v)));
        lemma_lookup_push(data.skip(1), k, v, k2);
    }
}

/// The first entry bearing a key is the one `lookup` finds.
proof fn lemma_lookup_first(data: Seq<(Unsubscribe, String)>, k: Unsubscribe, at: int)
    requires
        0 <= at < data.len(),
        data[at].0 == k,
        forall|m: int| 0 <= m < at ==> (#[trigger] data[m]).0 != k,
    ensures
        lookup(data, k) == Some::<Seq<char>>(data[at].1@),
    decreases at,
{
    if at > 0 {
        let rest = data.skip(1);
        assert(forall|m: int| 0 <= m < rest.len() ==> rest[m] == data[m + 1]);
        lemma_lookup_first(rest, k, at - 1);
    }
}

/// A step name reads back to its step.
pub proof fn lemma_step_of_name(st: Unsubscribe)
    ensures
        spec_step_of(spec_step_name(st)) == Some(st),
{
    reveal_strlit("Start");
    reveal_strlit("Subreddit");
    assert("Start"@.len() == 5);
    assert("Subreddit"@.len() == 9);
}

/// Persist, then resume: the row a well-formed conversation writes is one
/// that resuming accepts — its step name reads back to the same step, and
/// its data field decodes to exactly the stored payloads.
pub proof fn lemma_resume_accepts_persisted(d: Dialog<Unsubscribe>)
    requires
        d.wf(),
    ensures
        spec_step_of(spec_step_name(d.current_step)) == Some(d.current_step),
        dec_pairs(enc_pairs(named_pairs(d.data@))) == Some(named_pairs(d.data@)),
        good_pairs(named_pairs(d.data@)),
{
    lemma_step_of_name(d.current_step);
    crate::dialogs::lemma_codec_round_trip(named_pairs(d.data@));
    let ps = named_pairs(d.data@);
    assert forall|i: int| 0 <= i < ps.len() implies spec_step_of((#[trigger] ps[i]).0) is Some by {
        lemma_step_of_name(d.data@[i].0);
    }
    assert forall|i: int, j: int| 0 <= i < j < ps.len() implies (#[trigger] ps[i]).0 != (
    #[trigger] ps[j]).0 by {
        if ps[i].0 == ps[j].0 {
            lemma_step_of_name(d.data@[i].0);
            lemma_step_of_name(d.data@[j].0);
            assert(d.data@[i].0 == d.data@[j].0);
        }
    }
}

} // verus!
