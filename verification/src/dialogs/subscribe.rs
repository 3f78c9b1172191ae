//! The subscribe conversation: collect subreddit names, a weekday and an
//! hour, then create one subscription per validated name. An invalid name
//! aborts its step with a re-prompt and commits nothing; a duplicate name
//! is reported without aborting the remaining ones.

use vstd::prelude::*;

use crate::dialogs::{
    dec_pairs, decode_pairs, enc_pairs, encode_pairs, keys_distinct, lookup, pair_views,
    Dialog, StepOutcome,
};
use crate::errors::BotError;
use crate::models::{DialogEntity, Subscription};
use crate::store::{dialogs_without, spec_has_sub, spec_has_user, DbClient};
use crate::subreddits::{lemma_sorted_unique_len, parse_subreddits, tokens_spec, views_of};
use crate::telegram::{
    build_inline_keyboard_markup, spec_chunk_rows, text_message, InlineKeyboardButton, Message,
    ReplyMarkup,
};
use crate::textfmt::{fmt_u32, parse_select, spec_dec, spec_parse_select};
use crate::time::{spec_weekday_name, weekday_name};

verus! {

/// The steps of the unsubscribe conversation.
#[derive(Debug, Clone, Copy, PartialEq, Eq, Hash, Structural)]
pub enum Subscribe {
    Start,
    Subreddit,
    Weekday,
    Time,
}

pub open spec fn spec_step_name(st: Subscribe) -> Seq<char> {
    match st {
        Subscribe::Start => "Start"@,
        Subscribe::Subreddit => "Subreddit"@,
        Subscribe::Weekday => "Weekday"@,
        Subscribe::Time => "Time"@,
    }
}

pub open spec fn spec_step_of(s: Seq<char>) -> Option<Subscribe> {
    if s == "Start"@ {
        Some(Subscribe::Start)
    } else if s == "Subreddit"@ {
        Some(Subscribe::Subreddit)
    } else if s == "Weekday"@ {
        Some(Subscribe::Weekday)
    } else if s == "Time"@ {
        Some(Subscribe::Time)
    } else {
        None
    }
}

/// Renders a step's persisted name.
pub fn step_name(st: Subscribe) -> (r: String)
    ensures
        r@ == spec_step_name(st),
{
    match st {
        Subscribe::Start => "Start".to_owned(),
        Subscribe::Subreddit => "Subreddit".to_owned(),
        Subscribe::Weekday => "Weekday".to_owned(),
        Subscribe::Time => "Time".to_owned(),
    }
}

/// Reads a persisted step name back.
pub fn step_of_name(s: &String) -> (r: Option<Subscribe>)
    ensures
        r == spec_step_of(s@),
{
    let a = String::from_str("Start");
    let b = String::from_str("Subreddit");
    let c = String::from_str("Weekday");
    let d = String::from_str("Time");
    if s.eq(&a) {
        Some(Subscribe::Start)
    } else if s.eq(&b) {
        Some(Subscribe::Subreddit)
    } else if s.eq(&c) {
        Some(Subscribe::Weekday)
    } else if s.eq(&d) {
        Some(Subscribe::Time)
    } else {
        None
    }
}

/// The persisted name/payload pairs of the stored step data.
pub open spec fn named_pairs(data: Seq<(Subscribe, String)>) -> Seq<(Seq<char>, Seq<char>)> {
    Seq::new(data.len(), |i: int| (spec_step_name(data[i].0), data[i].1@))
}

/// Whether decoded pairs name known, pairwise-distinct steps.
pub open spec fn good_pairs(ps: Seq<(Seq<char>, Seq<char>)>) -> bool {
    &&& forall|i: int| 0 <= i < ps.len() ==> spec_step_of((#[trigger] ps[i]).0) is Some
    &&& forall|i: int, j: int| 0 <= i < j < ps.len() ==> (#[trigger] ps[i]).0 != (#[trigger] ps[j]).0
}

impl Dialog<Subscribe> {
    /// Step payloads are stored at most once per step.
    pub open spec fn wf(self) -> bool {
        keys_distinct(self.data@)
    }

    /// A fresh conversation at its start step.
    pub fn new(user_id: String) -> (r: Dialog<Subscribe>)
        ensures
            r.command@ == "/subscribe"@,
            r.user_id == user_id,
            r.current_step == Subscribe::Start,
            r.data@.len() == 0,
            r.wf(),
    {
        Dialog {
            command: "/subscribe".to_owned(),
            user_id,
            current_step: Subscribe::Start,
            data: Vec::new(),
        }
    }

    /// Stores a step's payload, replacing any earlier one.
    fn data_insert(&mut self, k: Subscribe, v: String)
        requires
            old(self).wf(),
        ensures
            final(self).wf(),
            final(self).command == old(self).command,
            final(self).user_id == old(self).user_id,
            final(self).current_step == old(self).current_step,
            lookup(final(self).data@, k) == Some::<Seq<char>>(v@),
            forall|k2: Subscribe| k2 != k ==> lookup(final(self).data@, k2) == lookup(
                old(self).data@,
                k2,
            ),
    {
        let n = self.data.len();
        let mut i: usize = 0;
        while i < n
            invariant
                0 <= i <= n,
                n == self.data@.len(),
                old(self).wf(),
                self.command == old(self).command,
                self.user_id == old(self).user_id,
                self.current_step == old(self).current_step,
                self.data@ == old(self).data@,
                forall|m: int| 0 <= m < i ==> (#[trigger] self.data@[m]).0 != k,
            decreases n - i,
        {
            if self.data[i].0 == k {
                self.data[i] = (k, v);
                proof {
                    assert(forall|m: int|
                        0 <= m < self.data@.len() ==> (#[trigger] self.data@[m]).0 == old(
                            self,
                        ).data@[m].0);
                    lemma_lookup_first(self.data@, k, i as int);
                    assert forall|k2: Subscribe| k2 != k implies lookup(self.data@, k2) == lookup(
                        old(self).data@,
                        k2,
                    ) by {
                        lemma_lookup_same(old(self).data@, self.data@, k, k2);
                    }
                }
                return ;
            }
            i += 1;
        }
        self.data.push((k, v));
        proof {
            lemma_lookup_first(self.data@, k, self.data@.len() - 1);
            assert forall|k2: Subscribe| k2 != k implies lookup(self.data@, k2) == lookup(
                old(self).data@,
                k2,
            ) by {
                lemma_lookup_push(old(self).data@, k, v, k2);
            }
        }
    }

    /// The persisted row of this conversation.
    pub fn into_entity(&self) -> (e: DialogEntity)
        ensures
            e.user_id == self.user_id,
            e.command == self.command,
            e.step@ == spec_step_name(self.current_step),
            e.data@ == enc_pairs(named_pairs(self.data@)),
    {
        let n = self.data.len();
        let mut pairs: Vec<(String, String)> = Vec::new();
        let mut i: usize = 0;
        proof {
            assert(pair_views(pairs@) =~= named_pairs(self.data@.take(0)));
        }
        while i < n
            invariant
                0 <= i <= n,
                n == self.data@.len(),
                pair_views(pairs@) == named_pairs(self.data@.take(i as int)),
            decreases n - i,
        {
            let ghost prev = pairs@;
            pairs.push((step_name(self.data[i].0), self.data[i].1.clone()));
            proof {
                let t0 = self.data@.take(i as int);
                let t1 = self.data@.take(i + 1);
                assert(forall|m: int| 0 <= m < i ==> t1[m] == t0[m]);
                assert(t1[i as int] == self.data@[i as int]);
                assert(pair_views(prev).len() == prev.len());
                assert(named_pairs(t0).len() == t0.len());
                assert(prev.len() == i);
                assert(pairs@.len() == i + 1);
                assert forall|m: int| 0 <= m < i + 1 implies pair_views(pairs@)[m] == named_pairs(
                    t1,
                )[m] by {
                    if m < i {
                        assert(pairs@[m] == prev[m]);
                        assert(pair_views(prev)[m] == named_pairs(t0)[m]);
                    } else {
                        assert(pairs@[m].0@ == spec_step_name(self.data@[m].0));
                        assert(pairs@[m].1@ == self.data@[m].1@);
                    }
                }
                assert(pair_views(pairs@) =~= named_pairs(t1));
            }
            i += 1;
        }
        proof {
            assert(self.data@.take(n as int) =~= self.data@);
        }
        let data = encode_pairs(&pairs);
        DialogEntity {
            user_id: self.user_id.clone(),
            command: self.command.clone(),
            step: step_name(self.current_step),
            data,
        }
    }

    /// Rebuilds a conversation from its persisted row; a row whose step or
    /// data no well-formed conversation produces is malformed.
    pub fn from_entity(e: &DialogEntity) -> (r: Result<Dialog<Subscribe>, BotError>)
        ensures
            match r {
                Ok(d) => {
                    &&& d.user_id == e.user_id
                    &&& d.command == e.command
                    &&& spec_step_name(d.current_step) == e.step@
                    &&& dec_pairs(e.data@) == Some(named_pairs(d.data@))
                    &&& d.wf()
                },
                Err(err) => {
                    &&& err == BotError::MalformedState
                    &&& (spec_step_of(e.step@) is None || dec_pairs(e.data@) is None || !good_pairs(
                        dec_pairs(e.data@)->0,
                    ))
                },
            },
    {
        let step = match step_of_name(&e.step) {
            Some(st) => st,
            None => {
                return Err(BotError::MalformedState);
            },
        };
        let pairs = match decode_pairs(e.data.as_str()) {
            Some(ps) => ps,
            None => {
                return Err(BotError::MalformedState);
            },
        };
        let ghost dps = pair_views(pairs@);
        proof {
            assert(dps.len() == pairs@.len());
        }
        let n = pairs.len();
        let mut data: Vec<(Subscribe, String)> = Vec::new();
        let mut i: usize = 0;
        while i < n
            invariant
                0 <= i <= n,
                n == pairs@.len(),
                dps == pair_views(pairs@),
                dps.len() == n,
                dec_pairs(e.data@) == Some(dps),
                spec_step_of(e.step@) == Some(step),
                data@.len() == i,
                forall|m: int|
                    0 <= m < i ==> spec_step_of(dps[m].0) == Some((#[trigger] data@[m]).0)
                        && data@[m].1@ == dps[m].1,
                keys_distinct(data@),
            decreases n - i,
        {
            let st = match step_of_name(&pairs[i].0) {
                Some(st) => st,
                None => {
                    proof {
                        assert(dps[i as int].0 == pairs@[i as int].0@);
                        assert(!good_pairs(dps));
                    }
                    return Err(BotError::MalformedState);
                },
            };
            // A step stored twice is corrupt data, not something to merge.
            let mut m: usize = 0;
            while m < i
                invariant
                    0 <= m <= i < n,
                    n == pairs@.len(),
                    dps == pair_views(pairs@),
                    dps.len() == n,
                    dec_pairs(e.data@) == Some(dps),
                    spec_step_of(e.step@) == Some(step),
                    data@.len() == i,
                    keys_distinct(data@),
                    spec_step_of(dps[i as int].0) == Some(st),
                    forall|w: int|
                        0 <= w < i ==> spec_step_of(dps[w].0) == Some((#[trigger] data@[w]).0)
                            && data@[w].1@ == dps[w].1,
                    forall|w: int| 0 <= w < m ==> (#[trigger] data@[w]).0 != st,
                decreases i - m,
            {
                if data[m].0 == st {
                    proof {
                        assert(spec_step_of(dps[m as int].0) == Some(data@[m as int].0));
                        lemma_step_name_of(dps[m as int].0);
                        lemma_step_name_of(dps[i as int].0);
                        assert(dps[m as int].0 == spec_step_name(data@[m as int].0));
                        assert(dps[i as int].0 == spec_step_name(st));
                        assert(dps[m as int].0 == dps[i as int].0);
                        assert(!good_pairs(dps)) by {
                            if good_pairs(dps) {
                                assert((m as int) < (i as int) && (i as int) < dps.len());
                                assert((dps[m as int]).0 != (dps[i as int]).0);
                            }
                        }
                    }
                    return Err(BotError::MalformedState);
                }
                m += 1;
            }
            data.push((st, pairs[i].1.clone()));
            i += 1;
        }
        proof {
            assert(named_pairs(data@) =~= dps) by {
                assert forall|w: int| 0 <= w < n implies (named_pairs(data@)[w]) == dps[w] by {
                    assert(spec_step_of(dps[w].0) == Some(data@[w].0));
                    lemma_step_name_of(dps[w].0);
                }
            }
        }
        Ok(
            Dialog {
                command: e.command.clone(),
                user_id: e.user_id.clone(),
                current_step: step,
                data,
            },
        )
    }

    /// The payload stored for a step, when one is there.
    pub fn data_get(&self, k: Subscribe) -> (r: Option<&String>)
        ensures
            match r {
                Some(v) => lookup(self.data@, k) == Some::<Seq<char>>(v@),
                None => lookup(self.data@, k) is None,
            },
    {
        let n = self.data.len();
        let mut i: usize = 0;
        while i < n
            invariant
                0 <= i <= n,
                n == self.data@.len(),
                forall|m: int| 0 <= m < i ==> (#[trigger] self.data@[m]).0 != k,
            decreases n - i,
        {
            if self.data[i].0 == k {
                proof {
                    lemma_lookup_first(self.data@, k, i as int);
                }
                return Some(&self.data[i].1);
            }
            i += 1;
        }
        proof {
            lemma_lookup_none(self.data@, k);
        }
        None
    }

    /// Advances the conversation by one inbound payload.
    ///
    /// At `Start`: persist at `Subreddit` and prompt for names. At
    /// `Subreddit`: an invalid name (the caller validated them against the
    /// content source) re-prompts and commits nothing; otherwise persist at
    /// `Weekday` under a seven-button grid. At `Weekday`: persist at `Time`
    /// under a twenty-four-button grid. At `Time`: create one subscription
    /// per stored name — a duplicate is reported without aborting the rest
    /// — then drop the dialog row; the created rows are handed back for an
    /// immediate preview delivery.
    pub fn handle_current_step(
        &mut self,
        db: &mut DbClient,
        payload: &str,
        invalid_subreddit: Option<&String>,
    ) -> (r: Result<StepOutcome, BotError>)
        requires
            old(self).wf(),
            old(db).inv(),
        ensures
            final(db).inv(),
            final(self).wf(),
            final(db).users@ == old(db).users@,
            lookup(final(self).data@, old(self).current_step) == Some::<Seq<char>>(payload@),
            forall|k2: Subscribe|
                k2 != old(self).current_step ==> lookup(final(self).data@, k2) == lookup(
                    old(self).data@,
                    k2,
                ),
            r is Err ==> final(db).dialogs@ == old(db).dialogs@ && final(db).subscriptions@ == old(
                db,
            ).subscriptions@ && final(db).next_id == old(db).next_id,
            old(self).current_step == Subscribe::Start ==> {
                &&& (r is Err <==> !spec_has_user(old(db).users@, old(self).user_id@))
                &&& (r matches Err(e) ==> e matches BotError::DatabaseError(
                    crate::errors::StoreError::ForeignKeyViolation(_),
                ))
                &&& r is Ok ==> {
                    &&& final(db).subscriptions@ == old(db).subscriptions@
                    &&& final(db).next_id == old(db).next_id
                    &&& final(self).current_step == Subscribe::Subreddit
                    &&& exists|e: DialogEntity|
                        {
                            &&& final(db).dialogs@ == dialogs_without(
                                old(db).dialogs@,
                                old(self).user_id@,
                            ).push(e)
                            &&& e.user_id@ == old(self).user_id@
                            &&& e.command@ == old(self).command@
                            &&& e.step@ == "Subreddit"@
                            &&& e.data@ == enc_pairs(named_pairs(final(self).data@))
                        }
                    &&& r->Ok_0.messages@.len() == 1
                    &&& r->Ok_0.messages@[0].chat_id@ == old(self).user_id@
                    &&& r->Ok_0.messages@[0].text@
                        == "Type the name of subreddit you want to subscribe to.\nMultiple subreddits are allowed, separated by whitespace or newline."@
                    &&& r->Ok_0.deliveries@.len() == 0
                }
            },
            old(self).current_step == Subscribe::Subreddit ==> {
                &&& (invalid_subreddit matches Some(bad) ==> {
                    &&& r is Ok
                    &&& final(db).subscriptions@ == old(db).subscriptions@
                    &&& final(db).dialogs@ == old(db).dialogs@
                    &&& final(db).next_id == old(db).next_id
                    &&& final(self).current_step == Subscribe::Subreddit
                    &&& r->Ok_0.messages@.len() == 1
                    &&& r->Ok_0.messages@[0].chat_id@ == old(self).user_id@
                    &&& r->Ok_0.messages@[0].text@ == "Invalid subreddit - "@ + bad@
                        + ", try again"@
                    &&& r->Ok_0.deliveries@.len() == 0
                })
                &&& (invalid_subreddit is None ==> {
                    &&& (r is Err <==> !spec_has_user(old(db).users@, old(self).user_id@))
                    &&& r is Ok ==> {
                        &&& final(db).subscriptions@ == old(db).subscriptions@
                        &&& final(db).next_id == old(db).next_id
                        &&& final(self).current_step == Subscribe::Weekday
                        &&& exists|e: DialogEntity|
                            {
                                &&& final(db).dialogs@ == dialogs_without(
                                    old(db).dialogs@,
                                    old(self).user_id@,
                                ).push(e)
                                &&& e.user_id@ == old(self).user_id@
                                &&& e.command@ == old(self).command@
                                &&& e.step@ == "Weekday"@
                                &&& e.data@ == enc_pairs(named_pairs(final(self).data@))
                            }
                        &&& r->Ok_0.messages@.len() == 1
                        &&& r->Ok_0.messages@[0].chat_id@ == old(self).user_id@
                        &&& r->Ok_0.messages@[0].text@
                            == "On which day do you want to receive the posts?"@
                        &&& (r->Ok_0.messages@[0].reply_markup matches Some(
                            ReplyMarkup::InlineKeyboardMarkup(kb),
                        ) && (exists|bs: Seq<InlineKeyboardButton>|
                            {
                                &&& #[trigger] bs.len() == 7
                                &&& (forall|i: int|
                                    0 <= i < 7 ==> (#[trigger] bs[i]).text@ == spec_weekday_name(i)
                                        && bs[i].callback_data@ == spec_dec(i as nat))
                                &&& kb.inline_keyboard@.len() == spec_chunk_rows(bs, 2).len()
                                &&& (forall|i: int|
                                    0 <= i < kb.inline_keyboard@.len() ==> (
                                    #[trigger] kb.inline_keyboard@[i])@ == spec_chunk_rows(
                                        bs,
                                        2,
                                    )[i])
                            }))
                        &&& r->Ok_0.deliveries@.len() == 0
                    }
                })
            },
            old(self).current_step == Subscribe::Weekday ==> {
                &&& (r is Err <==> !spec_has_user(old(db).users@, old(self).user_id@))
                &&& r is Ok ==> {
                    &&& final(db).subscriptions@ == old(db).subscriptions@
                    &&& final(db).next_id == old(db).next_id
                    &&& final(self).current_step == Subscribe::Time
                    &&& exists|e: DialogEntity|
                        {
                            &&& final(db).dialogs@ == dialogs_without(
                                old(db).dialogs@,
                                old(self).user_id@,
                            ).push(e)
                            &&& e.user_id@ == old(self).user_id@
                            &&& e.command@ == old(self).command@
                            &&& e.step@ == "Time"@
                            &&& e.data@ == enc_pairs(named_pairs(final(self).data@))
                        }
                    &&& r->Ok_0.messages@.len() == 1
                    &&& r->Ok_0.messages@[0].chat_id@ == old(self).user_id@
                    &&& r->Ok_0.messages@[0].text@ == "At what time? (UTC)"@
                    &&& (r->Ok_0.messages@[0].reply_markup matches Some(
                        ReplyMarkup::InlineKeyboardMarkup(kb),
                    ) && (exists|bs: Seq<InlineKeyboardButton>|
                        {
                            &&& #[trigger] bs.len() == 24
                            &&& (forall|i: int|
                                0 <= i < 24 ==> (#[trigger] bs[i]).text@ == spec_dec(i as nat)
                                    + ":00"@ && bs[i].callback_data@ == spec_dec(i as nat))
                            &&& kb.inline_keyboard@.len() == spec_chunk_rows(bs, 4).len()
                            &&& (forall|i: int|
                                0 <= i < kb.inline_keyboard@.len() ==> (
                                #[trigger] kb.inline_keyboard@[i])@ == spec_chunk_rows(bs, 4)[i])
                        }))
                    &&& r->Ok_0.deliveries@.len() == 0
                }
            },
            old(self).current_step == Subscribe::Time ==> {
                &&& (r is Err <==> (lookup(old(self).data@, Subscribe::Subreddit) is None || lookup(
                    old(self).data@,
                    Subscribe::Weekday,
                ) is None))
                &&& (r matches Err(e) ==> e == BotError::MalformedState)
                &&& r is Ok ==> {
                    let u = old(self).user_id@;
                    let names = tokens_spec(lookup(old(self).data@, Subscribe::Subreddit)->0);
                    let day = spec_parse_select(
                        lookup(old(self).data@, Subscribe::Weekday)->0,
                        7,
                        0,
                    );
                    let hour = spec_parse_select(payload@, 24, 12);
                    &&& final(db).dialogs@ == dialogs_without(old(db).dialogs@, u)
                    // The id counter moves exactly with the rows that exist:
                    // no row can be spirited away behind a counter jump.
                    &&& final(db).next_id - old(db).next_id == final(db).subscriptions@.len()
                        - old(db).subscriptions@.len()
                    &&& (forall|x: Seq<char>, y: Seq<char>|
                        spec_has_sub(old(db).subscriptions@, x, y) ==> spec_has_sub(
                            final(db).subscriptions@,
                            x,
                            y,
                        ))
                    // With the user present and id space for every name, each
                    // name ends up subscribed.
                    &&& (spec_has_user(old(db).users@, u) && old(db).next_id + names.len()
                        <= i32::MAX ==> forall|t: Seq<char>|
                        #[trigger] names.contains(t) ==> spec_has_sub(
                            final(db).subscriptions@,
                            u,
                            t,
                        ))
                    // Every row is an old row or a fresh, unstamped row for
                    // one of the names, with the chosen weekday and hour.
                    &&& (forall|i: int|
                        0 <= i < final(db).subscriptions@.len() ==> old(
                            db,
                        ).subscriptions@.contains(#[trigger] final(db).subscriptions@[i]) || {
                            let row = final(db).subscriptions@[i];
                            &&& row.user_id@ == u
                            &&& names.contains(row.subreddit@)
                            &&& row.send_on as int == day as int
                            &&& row.send_at as int == hour as int
                            &&& row.last_sent_at is None
                        })
                    // Every fresh row is handed back for an immediate
                    // preview delivery.
                    &&& (forall|i: int|
                        0 <= i < final(db).subscriptions@.len() && !old(
                            db,
                        ).subscriptions@.contains(#[trigger] final(db).subscriptions@[i])
                            ==> r->Ok_0.deliveries@.contains(final(db).subscriptions@[i]))
                    &&& r->Ok_0.messages@.len() >= 1
                    &&& r->Ok_0.messages@[r->Ok_0.messages@.len() - 1].chat_id@ == u
                    &&& r->Ok_0.messages@[r->Ok_0.messages@.len() - 1].text@
                        == "You can use /sendnow to get posts now from all of your subscriptions."@
                    &&& (forall|i: int|
                        0 <= i < r->Ok_0.messages@.len() - 1 ==> (
                        #[trigger] r->Ok_0.messages@[i]).chat_id@ == u && ((exists|t: Seq<char>|
                            #[trigger] names.contains(t) && (r->Ok_0.messages@[i].text@
                                == spec_confirmation(t, day as int, hour as nat)
                                || r->Ok_0.messages@[i].text@ == "Already subscribed to "@ + t))
                            || r->Ok_0.messages@[i].text@ == "Something went wrong"@))
                    // A name already subscribed gets its duplicate report.
                    &&& (forall|t: Seq<char>|
                        #[trigger] names.contains(t) && spec_has_sub(
                            old(db).subscriptions@,
                            u,
                            t,
                        ) ==> exists|i: int|
                            0 <= i < r->Ok_0.messages@.len() - 1 && r->Ok_0.messages@[i].text@
                                == "Already subscribed to "@ + t)
                    // Every delivery is a fresh, unstamped row for one of the
                    // names, still present in the store, and confirmed.
                    &&& (forall|i: int|
                        0 <= i < r->Ok_0.deliveries@.len() ==> {
                            let row = #[trigger] r->Ok_0.deliveries@[i];
                            &&& row.user_id@ == u
                            &&& names.contains(row.subreddit@)
                            &&& row.send_on as int == day as int
                            &&& row.send_at as int == hour as int
                            &&& row.last_sent_at is None
                            &&& spec_has_sub(final(db).subscriptions@, u, row.subreddit@)
                            &&& exists|m: int|
                                0 <= m < r->Ok_0.messages@.len() - 1 && r->Ok_0.messages@[m].text@
                                    == spec_confirmation(row.subreddit@, day as int, hour as nat)
                        })
                }
            },
    {
        let step = self.current_step;
        self.data_insert(step, payload.to_owned());
        let mut messages: Vec<Message> = Vec::new();
        let mut deliveries: Vec<Subscription> = Vec::new();
        match step {
            Subscribe::Start => {
                self.current_step = Subscribe::Subreddit;
                let entity = self.into_entity();
                match db.insert_or_update_dialog(&entity) {
                    Ok(_) => {},
                    Err(e) => {
                        return Err(BotError::DatabaseError(e));
                    },
                }
                messages.push(
                    text_message(
                        self.user_id.as_str(),
                        "Type the name of subreddit you want to subscribe to.\nMultiple subreddits are allowed, separated by whitespace or newline.".to_owned(),
                    ),
                );
                Ok(StepOutcome { messages, deliveries })
            },
            Subscribe::Subreddit => {
                if let Some(bad) = invalid_subreddit {
                    let mut text = String::from_str("Invalid subreddit - ");
                    text.append(bad.as_str());
                    text.append(", try again");
                    messages.push(text_message(self.user_id.as_str(), text));
                    return Ok(StepOutcome { messages, deliveries });
                }
                let mut buttons: Vec<InlineKeyboardButton> = Vec::new();
                let mut d: u32 = 0;
                while d < 7
                    invariant
                        0 <= d <= 7,
                        buttons@.len() == d,
                        forall|m: int|
                            0 <= m < d ==> (#[trigger] buttons@[m]).text@ == spec_weekday_name(m)
                                && buttons@[m].callback_data@ == spec_dec(m as nat),
                    decreases 7 - d,
                {
                    buttons.push(
                        InlineKeyboardButton {
                            text: weekday_name(d),
                            callback_data: fmt_u32(d),
                        },
                    );
                    d += 1;
                }
                let ghost bviews = buttons@;
                let markup = build_inline_keyboard_markup(buttons, 2);
                self.current_step = Subscribe::Weekday;
                let entity = self.into_entity();
                match db.insert_or_update_dialog(&entity) {
                    Ok(_) => {},
                    Err(e) => {
                        return Err(BotError::DatabaseError(e));
                    },
                }
                let mut msg = text_message(
                    self.user_id.as_str(),
                    "On which day do you want to receive the posts?".to_owned(),
                );
                msg.reply_markup = Some(ReplyMarkup::InlineKeyboardMarkup(markup));
                messages.push(msg);
                Ok(StepOutcome { messages, deliveries })
            },
            Subscribe::Weekday => {
                let mut buttons: Vec<InlineKeyboardButton> = Vec::new();
                let mut h: u32 = 0;
                while h < 24
                    invariant
                        0 <= h <= 24,
                        buttons@.len() == h,
                        forall|m: int|
                            0 <= m < h ==> (#[trigger] buttons@[m]).text@ == spec_dec(m as nat)
                                + ":00"@ && buttons@[m].callback_data@ == spec_dec(m as nat),
                    decreases 24 - h,
                {
                    let mut label = fmt_u32(h);
                    label.append(":00");
                    buttons.push(InlineKeyboardButton { text: label, callback_data: fmt_u32(h) });
                    h += 1;
                }
                let markup = build_inline_keyboard_markup(buttons, 4);
                self.current_step = Subscribe::Time;
                let entity = self.into_entity();
                match db.insert_or_update_dialog(&entity) {
                    Ok(_) => {},
                    Err(e) => {
                        return Err(BotError::DatabaseError(e));
                    },
                }
                let mut msg = text_message(self.user_id.as_str(), "At what time? (UTC)".to_owned());
                msg.reply_markup = Some(ReplyMarkup::InlineKeyboardMarkup(markup));
                messages.push(msg);
                Ok(StepOutcome { messages, deliveries })
            },
            Subscribe::Time => {
                let sub_text = match self.data_get(Subscribe::Subreddit) {
                    Some(s) => s.clone(),
                    None => {
                        return Err(BotError::MalformedState);
                    },
                };
                let day_text = match self.data_get(Subscribe::Weekday) {
                    Some(s) => s.clone(),
                    None => {
                        return Err(BotError::MalformedState);
                    },
                };
                let ghost u = old(self).user_id@;
                let ghost names = tokens_spec(lookup(old(self).data@, Subscribe::Subreddit)->0);
                let topics = parse_subreddits(sub_text.as_str());
                let day = parse_select(day_text.as_str(), 7, 0);
                let hour = parse_select(payload, 24, 12);
                let ghost gday = day as int;
                let ghost ghour = hour as nat;
                let tn = topics.len();
                proof {
                    // Ordering and de-duplicating never grows the name list,
                    // so id space for every name covers every topic.
                    lemma_sorted_unique_len(views_of(topics@), names);
                }
                let mut k: usize = 0;
                while k < tn
                    invariant
                        0 <= k <= tn,
                        tn == topics@.len(),
                        tn <= names.len(),
                        db.inv(),
                        0 <= day < 7,
                        0 <= hour < 24,
                        gday == day as int,
                        ghour == hour as nat,
                        u == self.user_id@,
                        self.user_id@ == old(self).user_id@,
                        forall|x: Seq<char>| #[trigger]
                            views_of(topics@).contains(x) <==> names.contains(x),
                        db.users@ == old(db).users@,
                        db.dialogs@ == old(db).dialogs@,
                        db.next_id - old(db).next_id == db.subscriptions@.len() - old(
                            db,
                        ).subscriptions@.len(),
                        db.subscriptions@.len() <= old(db).subscriptions@.len() + k,
                        forall|x: Seq<char>, y: Seq<char>|
                            spec_has_sub(old(db).subscriptions@, x, y) ==> spec_has_sub(
                                db.subscriptions@,
                                x,
                                y,
                            ),
                        spec_has_user(old(db).users@, u) && old(db).next_id + names.len()
                            <= i32::MAX ==> forall|m: int|
                            0 <= m < k ==> spec_has_sub(
                                db.subscriptions@,
                                u,
                                (#[trigger] topics@[m])@,
                            ),
                        forall|i: int|
                            0 <= i < db.subscriptions@.len() ==> old(db).subscriptions@.contains(
                                #[trigger] db.subscriptions@[i],
                            ) || {
                                let row = db.subscriptions@[i];
                                &&& row.user_id@ == u
                                &&& names.contains(row.subreddit@)
                                &&& row.send_on as int == gday
                                &&& row.send_at as int == ghour
                                &&& row.last_sent_at is None
                            },
                        forall|i: int|
                            0 <= i < db.subscriptions@.len() ==> old(db).subscriptions@.contains(
                                #[trigger] db.subscriptions@[i],
                            ) || deliveries@.contains(db.subscriptions@[i]),
                        forall|i: int|
                            0 <= i < messages@.len() ==> (#[trigger] messages@[i]).chat_id@ == u
                                && ((exists|t: Seq<char>|
                                #[trigger] names.contains(t) && (messages@[i].text@
                                    == spec_confirmation(t, gday, ghour) || messages@[i].text@
                                    == "Already subscribed to "@ + t))
                                || messages@[i].text@ == "Something went wrong"@),
                        forall|t: Seq<char>|
                            #[trigger] names.contains(t) && spec_has_sub(
                                old(db).subscriptions@,
                                u,
                                t,
                            ) && (exists|j: int| 0 <= j < k && (#[trigger] topics@[j])@ == t)
                                ==> exists|i: int|
                                0 <= i < messages@.len() && messages@[i].text@
                                    == "Already subscribed to "@ + t,
                        forall|i: int|
                            0 <= i < deliveries@.len() ==> {
                                let row = #[trigger] deliveries@[i];
                                &&& row.user_id@ == u
                                &&& names.contains(row.subreddit@)
                                &&& row.send_on as int == gday
                                &&& row.send_at as int == ghour
                                &&& row.last_sent_at is None
                                &&& spec_has_sub(db.subscriptions@, u, row.subreddit@)
                                &&& exists|m: int|
                                    0 <= m < messages@.len() && messages@[m].text@
                                        == spec_confirmation(row.subreddit@, gday, ghour)
                            },
                    decreases tn - k,
                {
                    proof {
                        assert(views_of(topics@)[k as int] == topics@[k as int]@);
                        assert(views_of(topics@).contains(topics@[k as int]@));
                        assert(names.contains(topics@[k as int]@));
                    }
                    let ghost pre_subs = db.subscriptions@;
                    let ghost pre_msgs = messages@;
                    let ghost pre_dels = deliveries@;
                    let ghost tk = topics@[k as int]@;
                    let res = db.subscribe(
                        self.user_id.as_str(),
                        topics[k].as_str(),
                        day as i32,
                        hour as i32,
                    );
                    match res {
                        Ok(created) => {
                            proof {
                                let p = choose|p: int|
                                    0 <= p <= pre_subs.len() && db.subscriptions@ == pre_subs.insert(
                                        p,
                                        res->Ok_0,
                                    );
                                pre_subs.insert_ensures(p, res->Ok_0);
                                assert forall|x: Seq<char>, y: Seq<char>|
                                    spec_has_sub(pre_subs, x, y) implies spec_has_sub(
                                    db.subscriptions@,
                                    x,
                                    y,
                                ) by {
                                    let w = choose|w: int|
                                        0 <= w < pre_subs.len() && pre_subs[w].user_id@ == x
                                            && pre_subs[w].subreddit@ == y;
                                    if w < p {
                                        assert(db.subscriptions@[w] == pre_subs[w]);
                                    } else {
                                        assert(db.subscriptions@[w + 1] == pre_subs[w]);
                                    }
                                }
                                assert forall|i: int|
                                    0 <= i < db.subscriptions@.len() implies pre_subs.contains(
                                    #[trigger] db.subscriptions@[i],
                                ) || db.subscriptions@[i] == res->Ok_0 by {
                                    if i < p {
                                        assert(db.subscriptions@[i] == pre_subs[i]);
                                    } else if i > p {
                                        assert(db.subscriptions@[i] == pre_subs[i - 1]);
                                    }
                                }
                            }
                            let mut text = String::from_str("Subscribed to: ");
                            text.append(created.subreddit.as_str());
                            text.append(". Posts will be sent periodically on ");
                            let dn = weekday_name(day);
                            text.append(dn.as_str());
                            text.append(" at around ");
                            let hn = fmt_u32(hour);
                            text.append(hn.as_str());
                            text.append(":00 UTC time.");
                            messages.push(text_message(self.user_id.as_str(), text));
                            deliveries.push(created);
                            proof {
                                assert(forall|i: int|
                                    0 <= i < pre_dels.len() ==> #[trigger] deliveries@[i]
                                        == pre_dels[i]);
                                assert(forall|i: int|
                                    0 <= i < pre_msgs.len() ==> #[trigger] messages@[i]
                                        == pre_msgs[i]);
                                assert(deliveries@.last() == res->Ok_0);
                                assert forall|i: int|
                                    0 <= i < db.subscriptions@.len() implies old(
                                    db,
                                ).subscriptions@.contains(#[trigger] db.subscriptions@[i])
                                    || deliveries@.contains(db.subscriptions@[i]) by {
                                    if db.subscriptions@[i] == res->Ok_0 {
                                        assert(deliveries@[deliveries@.len() - 1] == res->Ok_0);
                                    } else {
                                        assert(pre_subs.contains(db.subscriptions@[i]));
                                        let w = choose|w: int|
                                            0 <= w < pre_subs.len() && pre_subs[w]
                                                == db.subscriptions@[i];
                                        if pre_dels.contains(pre_subs[w]) {
                                            let q = choose|q: int|
                                                0 <= q < pre_dels.len() && pre_dels[q]
                                                    == pre_subs[w];
                                            assert(deliveries@[q] == pre_subs[w]);
                                        }
                                    }
                                }
                                assert(messages@.last().text@ == spec_confirmation(
                                    res->Ok_0.subreddit@,
                                    gday,
                                    ghour,
                                ));
                                // The name just created cannot have been
                                // subscribed before; earlier reports carry over.
                                assert(!spec_has_sub(pre_subs, u, tk));
                                assert forall|t: Seq<char>|
                                    #[trigger] names.contains(t) && spec_has_sub(
                                        old(db).subscriptions@,
                                        u,
                                        t,
                                    ) && (exists|j: int|
                                        0 <= j < k + 1 && (#[trigger] topics@[j])@ == t)
                                    implies exists|i: int|
                                        0 <= i < messages@.len() && messages@[i].text@
                                            == "Already subscribed to "@ + t by {
                                    let j = choose|j: int|
                                        0 <= j < k + 1 && (#[trigger] topics@[j])@ == t;
                                    if j == k {
                                        assert(spec_has_sub(pre_subs, u, t));
                                        assert(false);
                                    } else {
                                        let i = choose|i: int|
                                            0 <= i < pre_msgs.len() && pre_msgs[i].text@
                                                == "Already subscribed to "@ + t;
                                        assert(messages@[i].text@ == "Already subscribed to "@
                                            + t);
                                    }
                                }
                                assert forall|i: int| 0 <= i < deliveries@.len() implies {
                                    let row = #[trigger] deliveries@[i];
                                    &&& row.user_id@ == u
                                    &&& names.contains(row.subreddit@)
                                    &&& row.send_on as int == gday
                                    &&& row.send_at as int == ghour
                                    &&& row.last_sent_at is None
                                    &&& spec_has_sub(db.subscriptions@, u, row.subreddit@)
                                    &&& exists|m: int|
                                        0 <= m < messages@.len() && messages@[m].text@
                                            == spec_confirmation(row.subreddit@, gday, ghour)
                                } by {
                                    if i < pre_dels.len() {
                                        assert(deliveries@[i] == pre_dels[i]);
                                        let m = choose|m: int|
                                            0 <= m < pre_msgs.len() && pre_msgs[m].text@
                                                == spec_confirmation(
                                                pre_dels[i].subreddit@,
                                                gday,
                                                ghour,
                                            );
                                        assert(messages@[m].text@ == spec_confirmation(
                                            deliveries@[i].subreddit@,
                                            gday,
                                            ghour,
                                        ));
                                    } else {
                                        assert(deliveries@[i] == res->Ok_0);
                                        assert(messages@[messages@.len() - 1].text@
                                            == spec_confirmation(
                                            deliveries@[i].subreddit@,
                                            gday,
                                            ghour,
                                        ));
                                    }
                                }
                            }
                        },
                        Err(crate::errors::StoreError::UniqueViolation(_)) => {
                            let mut text = String::from_str("Already subscribed to ");
                            text.append(topics[k].as_str());
                            messages.push(text_message(self.user_id.as_str(), text));
                            proof {
                                assert(forall|i: int|
                                    0 <= i < pre_msgs.len() ==> #[trigger] messages@[i]
                                        == pre_msgs[i]);
                                assert(messages@.last().text@ == "Already subscribed to "@ + tk);
                                assert forall|t: Seq<char>|
                                    #[trigger] names.contains(t) && spec_has_sub(
                                        old(db).subscriptions@,
                                        u,
                                        t,
                                    ) && (exists|j: int|
                                        0 <= j < k + 1 && (#[trigger] topics@[j])@ == t)
                                    implies exists|i: int|
                                        0 <= i < messages@.len() && messages@[i].text@
                                            == "Already subscribed to "@ + t by {
                                    let j = choose|j: int|
                                        0 <= j < k + 1 && (#[trigger] topics@[j])@ == t;
                                    if j == k {
                                        assert(messages@[messages@.len() - 1].text@
                                            == "Already subscribed to "@ + t);
                                    } else {
                                        let i = choose|i: int|
                                            0 <= i < pre_msgs.len() && pre_msgs[i].text@
                                                == "Already subscribed to "@ + t;
                                        assert(messages@[i].text@ == "Already subscribed to "@
                                            + t);
                                    }
                                }
                                assert forall|i: int| 0 <= i < deliveries@.len() implies exists|m:
                                    int|
                                    0 <= m < messages@.len() && messages@[m].text@
                                        == spec_confirmation(
                                        (#[trigger] deliveries@[i]).subreddit@,
                                        gday,
                                        ghour,
                                    ) by {
                                    let m = choose|m: int|
                                        0 <= m < pre_msgs.len() && pre_msgs[m].text@
                                            == spec_confirmation(
                                            deliveries@[i].subreddit@,
                                            gday,
                                            ghour,
                                        );
                                    assert(messages@[m].text@ == spec_confirmation(
                                        deliveries@[i].subreddit@,
                                        gday,
                                        ghour,
                                    ));
                                }
                            }
                        },
                        Err(_) => {
                            messages.push(
                                text_message(self.user_id.as_str(), "Something went wrong".to_owned()),
                            );
                            proof {
                                assert(forall|i: int|
                                    0 <= i < pre_msgs.len() ==> #[trigger] messages@[i]
                                        == pre_msgs[i]);
                                // The pair is not there (a duplicate would have
                                // been a unique violation), so no report is owed
                                // for this name; earlier reports carry over.
                                assert(!spec_has_sub(pre_subs, u, tk));
                                assert forall|t: Seq<char>|
                                    #[trigger] names.contains(t) && spec_has_sub(
                                        old(db).subscriptions@,
                                        u,
                                        t,
                                    ) && (exists|j: int|
                                        0 <= j < k + 1 && (#[trigger] topics@[j])@ == t)
                                    implies exists|i: int|
                                        0 <= i < messages@.len() && messages@[i].text@
                                            == "Already subscribed to "@ + t by {
                                    let j = choose|j: int|
                                        0 <= j < k + 1 && (#[trigger] topics@[j])@ == t;
                                    if j == k {
                                        assert(spec_has_sub(pre_subs, u, t));
                                        assert(false);
                                    } else {
                                        let i = choose|i: int|
                                            0 <= i < pre_msgs.len() && pre_msgs[i].text@
                                                == "Already subscribed to "@ + t;
                                        assert(messages@[i].text@ == "Already subscribed to "@
                                            + t);
                                    }
                                }
                                assert forall|i: int| 0 <= i < deliveries@.len() implies exists|m:
                                    int|
                                    0 <= m < messages@.len() && messages@[m].text@
                                        == spec_confirmation(
                                        (#[trigger] deliveries@[i]).subreddit@,
                                        gday,
                                        ghour,
                                    ) by {
                                    let m = choose|m: int|
                                        0 <= m < pre_msgs.len() && pre_msgs[m].text@
                                            == spec_confirmation(
                                            deliveries@[i].subreddit@,
                                            gday,
                                            ghour,
                                        );
                                    assert(messages@[m].text@ == spec_confirmation(
                                        deliveries@[i].subreddit@,
                                        gday,
                                        ghour,
                                    ));
                                }
                            }
                        },
                    }
                    proof {
                        if spec_has_user(old(db).users@, u) && old(db).next_id + names.len()
                            <= i32::MAX {
                            assert(pre_subs.len() <= old(db).subscriptions@.len() + k);
                            assert forall|m: int| 0 <= m < k + 1 implies spec_has_sub(
                                db.subscriptions@,
                                u,
                                (#[trigger] topics@[m])@,
                            ) by {
                                if m == k {
                                    if res is Err {
                                        assert(res matches Err(
                                            crate::errors::StoreError::UniqueViolation(_),
                                        ));
                                        assert(spec_has_sub(pre_subs, u, topics@[k as int]@));
                                    }
                                }
                            }
                        }
                    }
                    k += 1;
                }
                let ghost loop_msgs = messages@;
                messages.push(
                    text_message(
                        self.user_id.as_str(),
                        "You can use /sendnow to get posts now from all of your subscriptions.".to_owned(),
                    ),
                );
                proof {
                    assert(messages@.len() == loop_msgs.len() + 1);
                    assert(forall|i: int|
                        0 <= i < loop_msgs.len() ==> #[trigger] messages@[i] == loop_msgs[i]);
                    assert forall|t: Seq<char>|
                        #[trigger] names.contains(t) && spec_has_sub(
                            old(db).subscriptions@,
                            u,
                            t,
                        ) implies exists|i: int|
                        0 <= i < messages@.len() - 1 && messages@[i].text@
                            == "Already subscribed to "@ + t by {
                        assert(views_of(topics@).contains(t));
                        let m = choose|m: int|
                            0 <= m < views_of(topics@).len() && views_of(topics@)[m] == t;
                        assert(topics@[m]@ == t);
                        let i = choose|i: int|
                            0 <= i < loop_msgs.len() && loop_msgs[i].text@
                                == "Already subscribed to "@ + t;
                        assert(messages@[i].text@ == "Already subscribed to "@ + t);
                    }
                    assert forall|i: int| 0 <= i < deliveries@.len() implies exists|m: int|
                        0 <= m < messages@.len() - 1 && messages@[m].text@ == spec_confirmation(
                            (#[trigger] deliveries@[i]).subreddit@,
                            gday,
                            ghour,
                        ) by {
                        let m = choose|m: int|
                            0 <= m < loop_msgs.len() && loop_msgs[m].text@ == spec_confirmation(
                                deliveries@[i].subreddit@,
                                gday,
                                ghour,
                            );
                        assert(messages@[m].text@ == spec_confirmation(
                            deliveries@[i].subreddit@,
                            gday,
                            ghour,
                        ));
                    }
                }
                match db.delete_dialog(self.user_id.as_str()) {
                    Ok(_) => {},
                    Err(e) => {
                        return Err(BotError::DatabaseError(e));
                    },
                }
                proof {
                    if spec_has_user(old(db).users@, u) && old(db).next_id + names.len()
                        <= i32::MAX {
                        assert forall|t: Seq<char>| #[trigger]
                            names.contains(t) implies spec_has_sub(db.subscriptions@, u, t) by {
                            assert(views_of(topics@).contains(t));
                            let m = choose|m: int|
                                0 <= m < views_of(topics@).len() && views_of(topics@)[m] == t;
                            assert(topics@[m]@ == t);
                        }
                    }
                }
                Ok(StepOutcome { messages, deliveries })
            },
        }
    }
}

/// The step-name maps invert one another.
pub proof fn lemma_step_name_of(s: Seq<char>)
    requires
        spec_step_of(s) is Some,
    ensures
        spec_step_name(spec_step_of(s)->0) == s,
{
}

/// The first entry bearing a key is the one `lookup` finds.
proof fn lemma_lookup_first(data: Seq<(Subscribe, String)>, k: Subscribe, at: int)
    requires
        0 <= at < data.len(),
        data[at].0 == k,
        forall|m: int| 0 <= m < at ==> (#[trigger] data[m]).0 != k,
    ensures
        lookup(data, k) == Some::<Seq<char>>(data[at].1@),
    decreases at,
{
    if at > 0 {
        let rest = data.skip(1);
        assert(forall|m: int| 0 <= m < rest.len() ==> rest[m] == data[m + 1]);
        lemma_lookup_first(rest, k, at - 1);
    }
}


/// The confirmation text for one created subscription.
pub open spec fn spec_confirmation(topic: Seq<char>, day: int, hour: nat) -> Seq<char> {
    "Subscribed to: "@ + topic + ". Posts will be sent periodically on "@ + spec_weekday_name(day)
        + " at around "@ + spec_dec(hour) + ":00 UTC time."@
}

/// A key no entry bears is not found.
proof fn lemma_lookup_none(data: Seq<(Subscribe, String)>, k: Subscribe)
    requires
        forall|m: int| 0 <= m < data.len() ==> (#[trigger] data[m]).0 != k,
    ensures
        lookup(data, k) is None,
    decreases data.len(),
{
    if data.len() > 0 {
        let rest = data.skip(1);
        assert(forall|m: int| 0 <= m < rest.len() ==> rest[m] == data[m + 1]);
        lemma_lookup_none(rest, k);
    }
}

/// Entries under other keys keep their `lookup` result when one key's
/// entry is replaced in place.
proof fn lemma_lookup_same(
    data: Seq<(Subscribe, String)>,
    data2: Seq<(Subscribe, String)>,
    k: Subscribe,
    k2: Subscribe,
)
    requires
        data2.len() == data.len(),
        forall|m: int| 0 <= m < data.len() ==> (#[trigger] data2[m]).0 == data[m].0,
        forall|m: int| 0 <= m < data.len() && (#[trigger] data[m]).0 != k ==> data2[m].1 == data[m].1,
        k2 != k,
    ensures
        lookup(data2, k2) == lookup(data, k2),
    decreases data.len(),
{
    if data.len() > 0 {
        let r1 = data.skip(1);
        let r2 = data2.skip(1);
        assert(forall|m: int| 0 <= m < r1.len() ==> r1[m] == data[m + 1]);
        assert(forall|m: int| 0 <= m < r2.len() ==> r2[m] == data2[m + 1]);
        lemma_lookup_same(r1, r2, k, k2);
    }
}

/// Appending a new key's entry keeps every other key's `lookup` result.
proof fn lemma_lookup_push(data: Seq<(Subscribe, String)>, k: Subscribe, v: String, k2: Subscribe)
    requires
        k2 != k,
    ensures
        lookup(data.push((k, v)), k2) == lookup(data, k2),
    decreases data.len(),
{
    let d2 = data.push((k, v));
    if data.len() == 0 {
        assert(d2[0].0 == k);
        assert(d2.skip(1) =~= Seq::<(Subscribe, String)>::empty());
        assert(d2[0].0 != k2);
        assert(lookup(d2, k2) == lookup(d2.skip(1), k2));
        assert(d2.skip(1).len() == 0);
        assert(lookup(d2.skip(1), k2) is None);
        assert(lookup(data, k2) is None);
    } else {
        assert(d2[0] == data[0]);
        assert(d2.skip(1) =~= data.skip(1).push((k, v)));
        lemma_lookup_push(data.skip(1), k, v, k2);
    }
}

/// A step name reads back to its step.
pub proof fn lemma_step_of_name(st: Subscribe)
    ensures
        spec_step_of(spec_step_name(st)) == Some(st),
{
    reveal_strlit("Start");
    reveal_strlit("Subreddit");
    reveal_strlit("Weekday");
    reveal_strlit("Time");
    assert("Start"@.len() == 5);
    assert("Subreddit"@.len() == 9);
    assert("Weekday"@.len() == 7);
    assert("Time"@.len() == 4);
}

/// Persist, then resume: the row a well-formed conversation writes is one
/// that resuming accepts — its step name reads back to the same step, and
/// its data field decodes to exactly the stored payloads.
pub proof fn lemma_resume_accepts_persisted(d: Dialog<Subscribe>)
    requires
        d.wf(),
    ensures
        spec_step_of(spec_step_name(d.current_step)) == Some(d.current_step),
        dec_pairs(enc_pairs(named_pairs(d.data@))) == Some(named_pairs(d.data@)),
        good_pairs(named_pairs(d.data@)),
{
    lemma_step_of_name(d.current_step);
    crate::dialogs::lemma_codec_round_trip(named_pairs(d.data@));
    let ps = named_pairs(d.data@);
    assert forall|i: int| 0 <= i < ps.len() implies spec_step_of((#[trigger] ps[i]).0) is Some by {
        lemma_step_of_name(d.data@[i].0);
    }
    assert forall|i: int, j: int| 0 <= i < j < ps.len() implies (#[trigger] ps[i]).0 != (
    #[trigger] ps[j]).0 by {
        if ps[i].0 == ps[j].0 {
            lemma_step_of_name(d.data@[i].0);
            lemma_step_of_name(d.data@[j].0);
            assert(d.data@[i].0 == d.data@[j].0);
        }
    }
}

} // verus!
