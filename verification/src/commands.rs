//! One entry point per command. Each consumes plain values, drives the
//! store, and returns the replies to send and the digests to deliver; the
//! dispatch layer outside the crate only extracts the command token and
//! performs what comes back.

use vstd::prelude::*;
use vstd::string::StringExecFns;

use crate::dialogs::feedback::Feedback;
use crate::dialogs::subscribe::Subscribe;
use crate::dialogs::unsubscribe::Unsubscribe;
use crate::dialogs::{Dialog, StepOutcome};
use crate::errors::{BotError, StoreError};
use crate::models::Subscription;
use crate::store::{
    dialogs_without, spec_has_user, subs_not_of, subs_of, users_without, DbClient,
};
use crate::telegram::{text_message, Message};

verus! {

pub open spec fn spec_help_text() -> Seq<char> {
    "You can send me these commands:\n/start\n/stop\n/subscribe\n/unsubscribe\n/subscriptions\n/sendnow\n/feedback\n/help\n\nIf something looks wrong, tell me about it with /feedback."@
}

fn help_text() -> (r: String)
    ensures
        r@ == spec_help_text(),
{
    "You can send me these commands:\n/start\n/stop\n/subscribe\n/unsubscribe\n/subscriptions\n/sendnow\n/feedback\n/help\n\nIf something looks wrong, tell me about it with /feedback.".to_owned()
}

/// `/start`: create the user row — or greet an already-known user just the
/// same — and send the command list.
pub fn start(db: &mut DbClient, user_id: &str, created_at: &str) -> (r: Result<
    Vec<Message>,
    BotError,
>)
    requires
        old(db).inv(),
    ensures
        final(db).inv(),
        r is Ok,
        final(db).subscriptions@ == old(db).subscriptions@,
        final(db).dialogs@ == old(db).dialogs@,
        final(db).next_id == old(db).next_id,
        spec_has_user(final(db).users@, user_id@),
        spec_has_user(old(db).users@, user_id@) ==> final(db).users@ == old(db).users@,
        !spec_has_user(old(db).users@, user_id@) ==> exists|u: crate::models::User|
            {
                &&& final(db).users@ == old(db).users@.push(u)
                &&& u.id@ == user_id@
                &&& u.created_at@ == created_at@
            },
        r->Ok_0@.len() == 1,
        r->Ok_0@[0].chat_id@ == user_id@,
        r->Ok_0@[0].text@ == spec_help_text(),
{
    let res = db.create_user(user_id, created_at);
    match res {
        Ok(_) => {},
        Err(StoreError::UniqueViolation(_)) => {},
        Err(e) => {
            return Err(BotError::DatabaseError(e));
        },
    }
    let mut messages: Vec<Message> = Vec::new();
    messages.push(text_message(user_id, help_text()));
    Ok(messages)
}

/// `/stop`: delete the user row and, with it, the user's subscriptions and
/// any dialog in progress.
pub fn stop(db: &mut DbClient, user_id: &str) -> (r: Result<Vec<Message>, BotError>)
    requires
        old(db).inv(),
    ensures
        final(db).inv(),
        r is Ok,
        final(db).users@ == users_without(old(db).users@, user_id@),
        final(db).subscriptions@ == subs_not_of(old(db).subscriptions@, user_id@),
        final(db).dialogs@ == dialogs_without(old(db).dialogs@, user_id@),
        r->Ok_0@.len() == 1,
        r->Ok_0@[0].chat_id@ == user_id@,
        r->Ok_0@[0].text@ == "User and subscriptions deleted"@,
{
    match db.delete_user(user_id) {
        Ok(_) => {},
        Err(e) => {
            return Err(BotError::DatabaseError(e));
        },
    }
    let mut messages: Vec<Message> = Vec::new();
    messages.push(text_message(user_id, "User and subscriptions deleted".to_owned()));
    Ok(messages)
}

/// `/subscribe`: open the subscribe conversation. A user who never called
/// `/start` is told to, instead of surfacing the foreign-key violation.
pub fn subscribe(db: &mut DbClient, user_id: &str) -> (r: Result<StepOutcome, BotError>)
    requires
        old(db).inv(),
    ensures
        final(db).inv(),
        r is Ok,
        final(db).users@ == old(db).users@,
        final(db).subscriptions@ == old(db).subscriptions@,
        final(db).next_id == old(db).next_id,
        r->Ok_0.deliveries@.len() == 0,
        spec_has_user(old(db).users@, user_id@) ==> {
            &&& exists|e: crate::models::DialogEntity|
                {
                    &&& final(db).dialogs@ == dialogs_without(old(db).dialogs@, user_id@).push(e)
                    &&& e.user_id@ == user_id@
                    &&& e.command@ == "/subscribe"@
                    &&& e.step@ == "Subreddit"@
                }
            &&& r->Ok_0.messages@.len() == 1
            &&& r->Ok_0.messages@[0].chat_id@ == user_id@
            &&& r->Ok_0.messages@[0].text@
                == "Type the name of subreddit you want to subscribe to.\nMultiple subreddits are allowed, separated by whitespace or newline."@
        },
        !spec_has_user(old(db).users@, user_id@) ==> {
            &&& final(db).dialogs@ == old(db).dialogs@
            &&& r->Ok_0.messages@.len() == 1
            &&& r->Ok_0.messages@[0].chat_id@ == user_id@
            &&& r->Ok_0.messages@[0].text@
                == "You need to call /start before setting up subscriptions"@
        },
{
    let mut dialog = Dialog::<Subscribe>::new(user_id.to_owned());
    match dialog.handle_current_step(db, "", None) {
        Ok(o) => Ok(o),
        Err(BotError::DatabaseError(StoreError::ForeignKeyViolation(_))) => {
            let mut messages: Vec<Message> = Vec::new();
            messages.push(
                text_message(
                    user_id,
                    "You need to call /start before setting up subscriptions".to_owned(),
                ),
            );
            Ok(StepOutcome { messages, deliveries: Vec::new() })
        },
        Err(e) => Err(e),
    }
}

/// `/unsubscribe`: open the unsubscribe conversation; a user with nothing
/// to unsubscribe is told so and no dialog row is written.
pub fn unsubscribe(db: &mut DbClient, user_id: &str) -> (r: Result<StepOutcome, BotError>)
    requires
        old(db).inv(),
    ensures
        final(db).inv(),
        r is Ok,
        r->Ok_0.deliveries@.len() == 0,
        subs_of(old(db).subscriptions@, user_id@).len() == 0 ==> {
            &&& final(db).users@ == old(db).users@
            &&& final(db).subscriptions@ == old(db).subscriptions@
            &&& final(db).dialogs@ == old(db).dialogs@
            &&& final(db).next_id == old(db).next_id
            &&& r->Ok_0.messages@.len() == 1
            &&& r->Ok_0.messages@[0].chat_id@ == user_id@
            &&& r->Ok_0.messages@[0].text@ == "You have no subscriptions to unsubscribe from"@
        },
        subs_of(old(db).subscriptions@, user_id@).len() > 0 ==> {
            &&& final(db).users@ == old(db).users@
            &&& final(db).subscriptions@ == old(db).subscriptions@
            &&& final(db).next_id == old(db).next_id
            &&& exists|e: crate::models::DialogEntity|
                {
                    &&& final(db).dialogs@ == dialogs_without(old(db).dialogs@, user_id@).push(e)
                    &&& e.user_id@ == user_id@
                    &&& e.command@ == "/unsubscribe"@
                    &&& e.step@ == "Subreddit"@
                }
            &&& r->Ok_0.messages@.len() == 1
            &&& r->Ok_0.messages@[0].text@ == "Select subreddit"@
        },
{
    let mut dialog = Dialog::<Unsubscribe>::new(user_id.to_owned());
    dialog.handle_current_step(db, "")
}

/// The listing body: one topic per line.
pub open spec fn spec_topic_lines(subs: Seq<Subscription>) -> Seq<char>
    decreases subs.len(),
{
    if subs.len() == 0 {
        Seq::empty()
    } else {
        spec_topic_lines(subs.drop_last()) + subs.last().subreddit@ + "\n"@
    }
}

/// `/subscriptions`: list the user's topics, or say there are none yet.
pub fn subscriptions(db: &DbClient, user_id: &str) -> (r: Result<Vec<Message>, BotError>)
    ensures
        r is Ok,
        r->Ok_0@.len() == 1,
        r->Ok_0@[0].chat_id@ == user_id@,
        subs_of(db.subscriptions@, user_id@).len() == 0 ==> r->Ok_0@[0].text@
            == "You haven't subscribed to anything yet. Subscribe using /subscribe command."@,
        subs_of(db.subscriptions@, user_id@).len() > 0 ==> r->Ok_0@[0].text@
            == "You are currently subscribed to:\n"@ + spec_topic_lines(
            subs_of(db.subscriptions@, user_id@),
        ),
{
    let subs = match db.get_user_subscriptions(user_id) {
        Ok(s) => s,
        Err(e) => {
            return Err(BotError::DatabaseError(e));
        },
    };
    let mut messages: Vec<Message> = Vec::new();
    if subs.len() == 0 {
        messages.push(
            text_message(
                user_id,
                "You haven't subscribed to anything yet. Subscribe using /subscribe command.".to_owned(),
            ),
        );
        return Ok(messages);
    }
    let mut text = String::from_str("You are currently subscribed to:\n");
    let n = subs.len();
    let mut i: usize = 0;
    proof {
        assert(spec_topic_lines(subs@.take(0)) =~= Seq::<char>::empty());
        assert(text@ =~= "You are currently subscribed to:\n"@ + spec_topic_lines(subs@.take(0)));
    }
    while i < n
        invariant
            0 <= i <= n,
            n == subs@.len(),
            text@ == "You are currently subscribed to:\n"@ + spec_topic_lines(subs@.take(i as int)),
        decreases n - i,
    {
        proof {
            assert(subs@.take(i + 1).drop_last() =~= subs@.take(i as int));
            assert(subs@.take(i + 1).last() == subs@[i as int]);
        }
        text.append(subs[i].subreddit.as_str());
        text.append("\n");
        proof {
            assert(text@ =~= "You are currently subscribed to:\n"@ + spec_topic_lines(
                subs@.take(i + 1),
            ));
        }
        i += 1;
    }
    proof {
        assert(subs@.take(n as int) =~= subs@);
    }
    messages.push(text_message(user_id, text));
    Ok(messages)
}

/// `/feedback`: open the feedback conversation. A user who never called
/// `/start` is told to, instead of surfacing the foreign-key violation.
pub fn feedback(db: &mut DbClient, author_id: &str, user_id: &str) -> (r: Result<
    StepOutcome,
    BotError,
>)
    requires
        old(db).inv(),
    ensures
        final(db).inv(),
        r is Ok,
        final(db).users@ == old(db).users@,
        final(db).subscriptions@ == old(db).subscriptions@,
        final(db).next_id == old(db).next_id,
        r->Ok_0.deliveries@.len() == 0,
        spec_has_user(old(db).users@, user_id@) ==> {
            &&& exists|e: crate::models::DialogEntity|
                {
                    &&& final(db).dialogs@ == dialogs_without(old(db).dialogs@, user_id@).push(e)
                    &&& e.user_id@ == user_id@
                    &&& e.command@ == "/feedback"@
                    &&& e.step@ == "Input"@
                }
            &&& r->Ok_0.messages@.len() == 1
            &&& r->Ok_0.messages@[0].chat_id@ == user_id@
            &&& r->Ok_0.messages@[0].text@
                == "You can write your feedback. If you want the author to get back to you, leave your email."@
        },
        !spec_has_user(old(db).users@, user_id@) ==> {
            &&& final(db).dialogs@ == old(db).dialogs@
            &&& r->Ok_0.messages@.len() == 1
            &&& r->Ok_0.messages@[0].chat_id@ == user_id@
            &&& r->Ok_0.messages@[0].text@ == "You need to call /start before interacting with me"@
        },
{
    let mut dialog = Dialog::<Feedback>::new(user_id.to_owned());
    match dialog.handle_current_step(db, author_id, "") {
        Ok(o) => Ok(o),
        Err(BotError::DatabaseError(StoreError::ForeignKeyViolation(_))) => {
            let mut messages: Vec<Message> = Vec::new();
            messages.push(
                text_message(user_id, "You need to call /start before interacting with me".to_owned()),
            );
            Ok(StepOutcome { messages, deliveries: Vec::new() })
        },
        Err(e) => Err(e),
    }
}

/// `/sendnow`: hand back every subscription of the user as a delivery job;
/// a user without any gets told so instead.
pub fn send_now(db: &DbClient, user_id: &str) -> (r: Result<StepOutcome, BotError>)
    ensures
        r is Ok,
        r->Ok_0.deliveries@ == subs_of(db.subscriptions@, user_id@),
        subs_of(db.subscriptions@, user_id@).len() == 0 ==> {
            &&& r->Ok_0.messages@.len() == 1
            &&& r->Ok_0.messages@[0].chat_id@ == user_id@
            &&& r->Ok_0.messages@[0].text@
                == "You haven't subscribed to anything yet. Subscribe using /subscribe command."@
        },
        subs_of(db.subscriptions@, user_id@).len() > 0 ==> r->Ok_0.messages@.len() == 0,
{
    let subs = match db.get_user_subscriptions(user_id) {
        Ok(s) => s,
        Err(e) => {
            return Err(BotError::DatabaseError(e));
        },
    };
    let mut messages: Vec<Message> = Vec::new();
    if subs.len() == 0 {
        messages.push(
            text_message(
                user_id,
                "You haven't subscribed to anything yet. Subscribe using /subscribe command.".to_owned(),
            ),
        );
    }
    Ok(StepOutcome { messages, deliveries: subs })
}

/// `/help`: the command list.
pub fn help(user_id: &str) -> (m: Message)
    ensures
        m.chat_id@ == user_id@,
        m.text@ == spec_help_text(),
{
    text_message(user_id, help_text())
}

} // verus!
