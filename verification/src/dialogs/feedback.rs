//! The feedback conversation: prompt for free text, relay it to the
//! operator, and confirm to the user.

use vstd::prelude::*;

use crate::dialogs::{
    dec_pairs, decode_pairs, enc_pairs, encode_pairs, keys_distinct, lookup, pair_views,
    Dialog, StepOutcome,
};
use crate::errors::BotError;
use crate::models::{DialogEntity, Subscription};
use crate::store::{dialogs_without, spec_has_user, DbClient};
use crate::telegram::{text_message, Message};

verus! {

/// The steps of the feedback conversation.
#[derive(Debug, Clone, Copy, PartialEq, Eq, Hash, Structural)]
pub enum Feedback {
    Start,
    Input,
}

pub open spec fn spec_step_name(st: Feedback) -> Seq<char> {
    match st {
        Feedback::Start => "Start"@,
        Feedback::Input => "Input"@,
    }
}

pub open spec fn spec_step_of(s: Seq<char>) -> Option<Feedback> {
    if s == "Start"@ {
        Some(Feedback::Start)
    } else if s == "Input"@ {
        Some(Feedback::Input)
    } else {
        None
    }
}

/// Renders a step's persisted name.
pub fn step_name(st: Feedback) -> (r: String)
    ensures
        r@ == spec_step_name(st),
{
    match st {
        Feedback::Start => "Start".to_owned(),
        Feedback::Input => "Input".to_owned(),
    }
}

/// Reads a persisted step name back.
pub fn step_of_name(s: &String) -> (r: Option<Feedback>)
    ensures
        r == spec_step_of(s@),
{
    let a = String::from_str("Start");
    let b = String::from_str("Input");
    if s.eq(&a) {
        Some(Feedback::Start)
    } else if s.eq(&b) {
        Some(Feedback::Input)
    } else {
        None
    }
}

/// The persisted name/payload pairs of the stored step data.
pub open spec fn named_pairs(data: Seq<(Feedback, String)>) -> Seq<(Seq<char>, Seq<char>)> {
    Seq::new(data.len(), |i: int| (spec_step_name(data[i].0), data[i].1@))
}

/// Whether decoded pairs name known, pairwise-distinct steps.
pub open spec fn good_pairs(ps: Seq<(Seq<char>, Seq<char>)>) -> bool {
    &&& forall|i: int| 0 <= i < ps.len() ==> spec_step_of((#[trigger] ps[i]).0) is Some
    &&& forall|i: int, j: int| 0 <= i < j < ps.len() ==> (#[trigger] ps[i]).0 != (#[trigger] ps[j]).0
}

impl Dialog<Feedback> {
    /// Step payloads are stored at most once per step.
    pub open spec fn wf(self) -> bool {
        keys_distinct(self.data@)
    }

    /// A fresh conversation at its start step.
    pub fn new(user_id: String) -> (r: Dialog<Feedback>)
        ensures
            r.command@ == "/feedback"@,
            r.user_id == user_id,
            r.current_step == Feedback::Start,
            r.data@.len() == 0,
            r.wf(),
    {
        Dialog {
            command: "/feedback".to_owned(),
            user_id,
            current_step: Feedback::Start,
            data: Vec::new(),
        }
    }

    /// Stores a step's payload, replacing any earlier one.
    fn data_insert(&mut self, k: Feedback, v: String)
        requires
            old(self).wf(),
        ensures
            final(self).wf(),
            final(self).command == old(self).command,
            final(self).user_id == old(self).user_id,
            final(self).current_step == old(self).current_step,
            lookup(final(self).data@, k) == Some::<Seq<char>>(v@),
            forall|k2: Feedback| k2 != k ==> lookup(final(self).data@, k2) == lookup(
                old(self).data@,
                k2,
            ),
    {
        let n = self.data.len();
        let mut i: usize = 0;
        while i < n
            invariant
                0 <= i <= n,
                n == self.data@.len(),
                old(self).wf(),
                self.command == old(self).command,
                self.user_id == old(self).user_id,
                self.current_step == old(self).current_step,
                self.data@ == old(self).data@,
                forall|m: int| 0 <= m < i ==> (#[trigger] self.data@[m]).0 != k,
            decreases n - i,
        {
            if self.data[i].0 == k {
                self.data[i] = (k, v);
                proof {
                    assert(forall|m: int|
                        0 <= m < self.data@.len() ==> (#[trigger] self.data@[m]).0 == old(
                            self,
                        ).data@[m].0);
                    lemma_lookup_first(self.data@, k, i as int);
                    assert forall|k2: Feedback| k2 != k implies lookup(self.data@, k2)
                        == lookup(old(self).data@, k2) by {
                        lemma_lookup_same(old(self).data@, self.data@, k, k2);
                    }
                }
                return ;
            }
            i += 1;
        }
        self.data.push((k, v));
        proof {
            lemma_lookup_first(self.data@, k, self.data@.len() - 1);
            assert forall|k2: Feedback| k2 != k implies lookup(self.data@, k2) == lookup(
                old(self).data@,
                k2,
            ) by {
                lemma_lookup_push(old(self).data@, k, v, k2);
            }
        }
    }

    /// The persisted row of this conversation.
    pub fn into_entity(&self) -> (e: DialogEntity)
        ensures
            e.user_id == self.user_id,
            e.command == self.command,
            e.step@ == spec_step_name(self.current_step),
            e.data@ == enc_pairs(named_pairs(self.data@)),
    {
        let n = self.data.len();
        let mut pairs: Vec<(String, String)> = Vec::new();
        let mut i: usize = 0;
        proof {
            assert(pair_views(pairs@) =~= named_pairs(self.data@.take(0)));
        }
        while i < n
            invariant
                0 <= i <= n,
                n == self.data@.len(),
                pair_views(pairs@) == named_pairs(self.data@.take(i as int)),
            decreases n - i,
        {
            let ghost prev = pairs@;
            pairs.push((step_name(self.data[i].0), self.data[i].1.clone()));
            proof {
                let t0 = self.data@.take(i as int);
                let t1 = self.data@.take(i + 1);
                assert(forall|m: int| 0 <= m < i ==> t1[m] == t0[m]);
                assert(t1[i as int] == self.data@[i as int]);
                assert(pair_views(prev).len() == prev.len());
                assert(named_pairs(t0).len() == t0.len());
                assert(prev.len() == i);
                assert(pairs@.len() == i + 1);
                assert forall|m: int| 0 <= m < i + 1 implies pair_views(pairs@)[m] == named_pairs(
                    t1,
                )[m] by {
                    if m < i {
                        assert(pairs@[m] == prev[m]);
                        assert(pair_views(prev)[m] == named_pairs(t0)[m]);
                    } else {
                        assert(pairs@[m].0@ == spec_step_name(self.data@[m].0));
                        assert(pairs@[m].1@ == self.data@[m].1@);
                    }
                }
                assert(pair_views(pairs@) =~= named_pairs(t1));
            }
            i += 1;
        }
        proof {
            assert(self.data@.take(n as int) =~= self.data@);
        }
        let data = encode_pairs(&pairs);
        DialogEntity {
            user_id: self.user_id.clone(),
            command: self.command.clone(),
            step: step_name(self.current_step),
            data,
        }
    }

    /// Rebuilds a conversation from its persisted row; a row whose step or
    /// data no well-formed conversation produces is malformed.
    pub fn from_entity(e: &DialogEntity) -> (r: Result<Dialog<Feedback>, BotError>)
        ensures
            match r {
                Ok(d) => {
                    &&& d.user_id == e.user_id
                    &&& d.command == e.command
                    &&& spec_step_name(d.current_step) == e.step@
                    &&& dec_pairs(e.data@) == Some(named_pairs(d.data@))
                    &&& d.wf()
                },
                Err(err) => {
                    &&& err == BotError::MalformedState
                    &&& (spec_step_of(e.step@) is None || dec_pairs(e.data@) is None || !good_pairs(
                        dec_pairs(e.data@)->0,
                    ))
                },
            },
    {
        let step = match step_of_name(&e.step) {
            Some(st) => st,
            None => {
                return Err(BotError::MalformedState);
            },
        };
        let pairs = match decode_pairs(e.data.as_str()) {
            Some(ps) => ps,
            None => {
                return Err(BotError::MalformedState);
            },
        };
        let ghost dps = pair_views(pairs@);
        proof {
            assert(dps.len() == pairs@.len());
        }
        let n = pairs.len();
        let mut data: Vec<(Feedback, String)> = Vec::new();
        let mut i: usize = 0;
        while i < n
            invariant
                0 <= i <= n,
                n == pairs@.len(),
                dps == pair_views(pairs@),
                dps.len() == n,
                dec_pairs(e.data@) == Some(dps),
                spec_step_of(e.step@) == Some(step),
                data@.len() == i,
                forall|m: int|
                    0 <= m < i ==> spec_step_of(dps[m].0) == Some((#[trigger] data@[m]).0)
                        && data@[m].1@ == dps[m].1,
                keys_distinct(data@),
            decreases n - i,
        {
            let st = match step_of_name(&pairs[i].0) {
                Some(st) => st,
                None => {
                    proof {
                        assert(dps[i as int].0 == pairs@[i as int].0@);
                        assert(!good_pairs(dps));
                    }
                    return Err(BotError::MalformedState);
                },
            };
            // A step stored twice is corrupt data, not something to merge.
            let mut m: usize = 0;
            while m < i
                invariant
                    0 <= m <= i < n,
                    n == pairs@.len(),
                    dps == pair_views(pairs@),
                    dps.len() == n,
                    dec_pairs(e.data@) == Some(dps),
                    spec_step_of(e.step@) == Some(step),
                    data@.len() == i,
                    keys_distinct(data@),
                    spec_step_of(dps[i as int].0) == Some(st),
                    forall|w: int|
                        0 <= w < i ==> spec_step_of(dps[w].0) == Some((#[trigger] data@[w]).0)
                            && data@[w].1@ == dps[w].1,
                    forall|w: int| 0 <= w < m ==> (#[trigger] data@[w]).0 != st,
                decreases i - m,
            {
                if data[m].0 == st {
                    proof {
                        assert(spec_step_of(dps[m as int].0) == Some(data@[m as int].0));
                        lemma_step_name_of(dps[m as int].0);
                        lemma_step_name_of(dps[i as int].0);
                        assert(dps[m as int].0 == spec_step_name(data@[m as int].0));
                        assert(dps[i as int].0 == spec_step_name(st));
                        assert(dps[m as int].0 == dps[i as int].0);
                        assert(!good_pairs(dps)) by {
                            if good_pairs(dps) {
                                assert((m as int) < (i as int) && (i as int) < dps.len());
                                assert((dps[m as int]).0 != (dps[i as int]).0);
                            }
                        }
                    }
                    return Err(BotError::MalformedState);
                }
                m += 1;
            }
            data.push((st, pairs[i].1.clone()));
            i += 1;
        }
        proof {
            assert(named_pairs(data@) =~= dps) by {
                assert forall|w: int| 0 <= w < n implies (named_pairs(data@)[w]) == dps[w] by {
                    assert(spec_step_of(dps[w].0) == Some(data@[w].0));
                    lemma_step_name_of(dps[w].0);
                }
            }
        }
        Ok(
            Dialog {
                command: e.command.clone(),
                user_id: e.user_id.clone(),
                current_step: step,
                data,
            },
        )
    }

    /// Advances the conversation by one inbound payload.
    ///
    /// At `Start`: the conversation is persisted at `Input` and the user is
    /// prompted for text; a user the store does not know surfaces the
    /// foreign-key violation. At `Input`: the text goes to the operator,
    /// the user gets a confirmation, and the dialog row is removed.
    pub fn handle_current_step(
        &mut self,
        db: &mut DbClient,
        author_id: &str,
        payload: &str,
    ) -> (r: Result<StepOutcome, BotError>)
        requires
            old(self).wf(),
            old(db).inv(),
        ensures
            final(db).inv(),
            final(self).wf(),
            final(db).users@ == old(db).users@,
            lookup(final(self).data@, old(self).current_step) == Some::<Seq<char>>(payload@),
            forall|k2: Feedback|
                k2 != old(self).current_step ==> lookup(final(self).data@, k2) == lookup(
                    old(self).data@,
                    k2,
                ),
            final(db).subscriptions@ == old(db).subscriptions@,
            final(db).next_id == old(db).next_id,
            r is Err ==> final(db).dialogs@ == old(db).dialogs@,
            r is Ok ==> (r->Ok_0.deliveries@.len() == 0),
            old(self).current_step == Feedback::Start ==> {
                &&& (r is Err <==> !spec_has_user(old(db).users@, old(self).user_id@))
                &&& (r matches Err(e) ==> e matches BotError::DatabaseError(
                    crate::errors::StoreError::ForeignKeyViolation(_),
                ))
                &&& r is Ok ==> {
                    &&& final(self).current_step == Feedback::Input
                    &&& exists|e: DialogEntity|
                        {
                            &&& final(db).dialogs@ == dialogs_without(
                                old(db).dialogs@,
                                old(self).user_id@,
                            ).push(e)
                            &&& e.user_id@ == old(self).user_id@
                            &&& e.command@ == old(self).command@
                            &&& e.step@ == "Input"@
                            &&& e.data@ == enc_pairs(named_pairs(final(self).data@))
                        }
                    &&& r->Ok_0.messages@.len() == 1
                    &&& r->Ok_0.messages@[0].chat_id@ == old(self).user_id@
                    &&& r->Ok_0.messages@[0].text@
                        == "You can write your feedback. If you want the author to get back to you, leave your email."@
                }
            },
            old(self).current_step == Feedback::Input ==> {
                &&& r is Ok
                &&& final(db).dialogs@ == dialogs_without(old(db).dialogs@, old(self).user_id@)
                &&& r->Ok_0.messages@.len() == 2
                &&& r->Ok_0.messages@[0].chat_id@ == author_id@
                &&& r->Ok_0.messages@[0].text@ == "Received input from user("@
                    + old(self).user_id@ + "):\n"@ + payload@
                &&& r->Ok_0.messages@[1].chat_id@ == old(self).user_id@
                &&& r->Ok_0.messages@[1].text@
                    == "Sent your feedback to the author. Thanks for the input!"@
            },
    {
        let step = self.current_step;
        self.data_insert(step, payload.to_owned());
        let mut messages: Vec<Message> = Vec::new();
        let deliveries: Vec<Subscription> = Vec::new();
        match step {
            Feedback::Start => {
                self.current_step = Feedback::Input;
                let entity = self.into_entity();
                match db.insert_or_update_dialog(&entity) {
                    Ok(_) => {},
                    Err(e) => {
                        return Err(BotError::DatabaseError(e));
                    },
                }
                messages.push(
                    text_message(
                        self.user_id.as_str(),
                        "You can write your feedback. If you want the author to get back to you, leave your email.".to_owned(),
                    ),
                );
                Ok(StepOutcome { messages, deliveries })
            },
            Feedback::Input => {
                let mut text = String::from_str("Received input from user(");
                text.append(self.user_id.as_str());
                text.append("):\n");
                text.append(payload);
                messages.push(text_message(author_id, text));
                messages.push(
                    text_message(
                        self.user_id.as_str(),
                        "Sent your feedback to the author. Thanks for the input!".to_owned(),
                    ),
                );
                match db.delete_dialog(self.user_id.as_str()) {
                    Ok(_) => {},
                    Err(e) => {
                        return Err(BotError::DatabaseError(e));
                    },
                }
                Ok(StepOutcome { messages, deliveries })
            },
        }
    }
}

/// The step-name maps invert one another.
pub proof fn lemma_step_name_of(s: Seq<char>)
    requires
        spec_step_of(s) is Some,
    ensures
        spec_step_name(spec_step_of(s)->0) == s,
{
}


/// Entries under other keys keep their `lookup` result when one key's
/// entry is replaced in place.
proof fn lemma_lookup_same(
    data: Seq<(Feedback, String)>,
    data2: Seq<(Feedback, String)>,
    k: Feedback,
    k2: Feedback,
)
    requires
        data2.len() == data.len(),
        forall|m: int| 0 <= m < data.len() ==> (#[trigger] data2[m]).0 == data[m].0,
        forall|m: int| 0 <= m < data.len() && (#[trigger] data[m]).0 != k ==> data2[m].1 == data[m].1,
        k2 != k,
    ensures
        lookup(data2, k2) == lookup(data, k2),
    decreases data.len(),
{
    if data.len() > 0 {
        let r1 = data.skip(1);
        let r2 = data2.skip(1);
        assert(forall|m: int| 0 <= m < r1.len() ==> r1[m] == data[m + 1]);
        assert(forall|m: int| 0 <= m < r2.len() ==> r2[m] == data2[m + 1]);
        lemma_lookup_same(r1, r2, k, k2);
    }
}

/// Appending a new key's entry keeps every other key's `lookup` result.
proof fn lemma_lookup_push(data: Seq<(Feedback, String)>, k: Feedback, v: String, k2: Feedback)
    requires
        k2 != k,
    ensures
        lookup(data.push((k, v)), k2) == lookup(data, k2),
    decreases data.len(),
{
    let d2 = data.push((k, v));
    if data.len() == 0 {
        assert(d2[0].0 == k);
        assert(d2.skip(1) =~= Seq::<(Feedback, String)>::empty());
        assert(d2[0].0 != k2);
        assert(lookup(d2, k2) == lookup(d2.skip(1), k2));
        assert(d2.skip(1).len() == 0);
        assert(lookup(d2.skip(1), k2) is None);
        assert(lookup(data, k2) is None);
    } else {
        assert(d2[0] == data[0]);
        assert(d2.skip(1) =~= data.skip(1).push((k, v)));
        lemma_lookup_push(data.skip(1), k, v, k2);
    }
}

/// The first entry bearing a key is the one `lookup` finds.
proof fn lemma_lookup_first(data: Seq<(Feedback, String)>, k: Feedback, at: int)
    requires
        0 <= at < data.len(),
        data[at].0 == k,
        forall|m: int| 0 <= m < at ==> (#[trigger] data[m]).0 != k,
    ensures
        lookup(data, k) == Some::<Seq<char>>(data[at].1@),
    decreases at,
{
    if at > 0 {
        let rest = data.skip(1);
        assert(forall|m: int| 0 <= m < rest.len() ==> rest[m] == data[m + 1]);
        lemma_lookup_first(rest, k, at - 1);
    }
}

/// A step name reads back to its step.
pub proof fn lemma_step_of_name(st: Feedback)
    ensures
        spec_step_of(spec_step_name(st)) == Some(st),
{
    reveal_strlit("Start");
    reveal_strlit("Input");
    assert("Start"@.len() == 5);
    assert("Input"@.len() == 5);
    assert("Start"@[0] == 'S');
    assert("Input"@[0] == 'I');
}

/// Persist, then resume: the row a well-formed conversation writes is one
/// that resuming accepts — its step name reads back to the same step, and
/// its data field decodes to exactly the stored payloads.
pub proof fn lemma_resume_accepts_persisted(d: Dialog<Feedback>)
    requires
        d.wf(),
    ensures
        spec_step_of(spec_step_name(d.current_step)) == Some(d.current_step),
        dec_pairs(enc_pairs(named_pairs(d.data@))) == Some(named_pairs(d.data@)),
        good_pairs(named_pairs(d.data@)),
{
    lemma_step_of_name(d.current_step);
    crate::dialogs::lemma_codec_round_trip(named_pairs(d.data@));
    let ps = named_pairs(d.data@);
    assert forall|i: int| 0 <= i < ps.len() implies spec_step_of((#[trigger] ps[i]).0) is Some by {
        lemma_step_of_name(d.data@[i].0);
    }
    assert forall|i: int, j: int| 0 <= i < j < ps.len() implies (#[trigger] ps[i]).0 != (
    #[trigger] ps[j]).0 by {
        if ps[i].0 == ps[j].0 {
            lemma_step_of_name(d.data@[i].0);
            lemma_step_of_name(d.data@[j].0);
            assert(d.data@[i].0 == d.data@[j].0);
        }
    }
}

} // verus!
