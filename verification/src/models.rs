//! The persisted entities: users, subscriptions and dialog rows.

use vstd::prelude::*;

use crate::time::Timestamp;

verus! {

/// The identity anchor: created on `/start`, deleted (with everything the
/// user owns) on `/stop`.
#[derive(Debug, PartialEq)]
pub struct User {
    pub id: String,
    pub created_at: String,
}

impl User {
    /// A field-by-field copy.
    pub fn duplicate(&self) -> (r: User)
        ensures
            r == *self,
    {
        User { id: self.id.clone(), created_at: self.created_at.clone() }
    }
}

/// One user's standing order for one subreddit: deliver on `send_on`
/// (0 = Monday .. 6 = Sunday) from hour `send_at` (UTC) on, at most once
/// per calendar day.
#[derive(Debug, PartialEq)]
pub struct Subscription {
    pub id: i32,
    pub user_id: String,
    pub subreddit: String,
    pub last_sent_at: Option<Timestamp>,
    pub send_on: i32,
    pub send_at: i32,
}

impl Subscription {
    /// The ranges the store upholds for every row.
    pub open spec fn valid(self) -> bool {
        0 <= self.send_on < 7 && 0 <= self.send_at < 24
    }

    /// A field-by-field copy.
    pub fn duplicate(&self) -> (r: Subscription)
        ensures
            r == *self,
    {
        Subscription {
            id: self.id,
            user_id: self.user_id.clone(),
            subreddit: self.subreddit.clone(),
            last_sent_at: self.last_sent_at,
            send_on: self.send_on,
            send_at: self.send_at,
        }
    }
}

/// The values a new subscription row is inserted with; the store assigns
/// the id.
#[derive(Debug, PartialEq)]
pub struct NewSubscription {
    pub user_id: String,
    pub subreddit: String,
    pub send_on: i32,
    pub send_at: i32,
    pub last_sent_at: Option<Timestamp>,
}

/// The durable dialog row, at most one per user: the command it belongs to,
/// the current step's name, and the encoded payloads of the visited steps.
#[derive(Debug, PartialEq)]
pub struct DialogEntity {
    pub user_id: String,
    pub command: String,
    pub step: String,
    pub data: String,
}

impl DialogEntity {
    /// A field-by-field copy.
    pub fn duplicate(&self) -> (r: DialogEntity)
        ensures
            r == *self,
    {
        DialogEntity {
            user_id: self.user_id.clone(),
            command: self.command.clone(),
            step: self.step.clone(),
            data: self.data.clone(),
        }
    }
}

} // verus!
