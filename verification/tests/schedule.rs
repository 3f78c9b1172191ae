use reddit_bot::models::Subscription;
use reddit_bot::reddit::Post;
use reddit_bot::store::DbClient;
use reddit_bot::task::{digest_message, due_subscriptions, is_due};
use reddit_bot::time::Timestamp;

fn at(day: u32, weekday: u32, hour: u32) -> Timestamp {
    Timestamp { year: 2024, month: 5, day, weekday, hour }
}

fn sub(last_sent_at: Option<Timestamp>) -> Subscription {
    Subscription {
        id: 1,
        user_id: "123".to_string(),
        subreddit: "rust".to_string(),
        last_sent_at,
        send_on: 4,
        send_at: 9,
    }
}

#[test]
fn due_when_never_sent() {
    // Friday at 10, configured for Friday from 9 on, never sent.
    assert!(is_due(&sub(None), &at(10, 4, 10)));
}

#[test]
fn not_due_when_sent_earlier_today() {
    let earlier_today = at(10, 4, 9);
    assert!(!is_due(&sub(Some(earlier_today)), &at(10, 4, 10)));
}

#[test]
fn due_again_after_a_day() {
    let yesterday = at(9, 3, 9);
    assert!(is_due(&sub(Some(yesterday)), &at(10, 4, 10)));
}

#[test]
fn not_due_on_other_weekday_or_before_hour() {
    assert!(!is_due(&sub(None), &at(11, 5, 10)));
    assert!(!is_due(&sub(None), &at(10, 4, 8)));
}

#[test]
fn scheduler_is_idempotent_within_a_day() {
    let mut db = DbClient::new();
    db.create_user("123", "t").unwrap();
    db.subscribe("123", "rust", 4, 9).unwrap();

    // On its configured day the new subscription is due.
    let morning = at(10, 4, 9);
    let due = due_subscriptions(&db, &morning);
    assert_eq!(due.len(), 1);

    // The delivery succeeds and is recorded.
    db.update_last_sent(due[0].id, morning).unwrap();

    // A second pass the same day finds nothing to send.
    let later = at(10, 4, 15);
    let due = due_subscriptions(&db, &later);
    assert_eq!(due.len(), 0);

    // The next eligible day it is due again.
    let next_week = at(17, 4, 9);
    let due = due_subscriptions(&db, &next_week);
    assert_eq!(due.len(), 1);
}

#[test]
fn digest_with_posts() {
    let posts = vec![Post {
        title: "A half-hour to learn Rust".to_string(),
        link: "https://reddit.com/r/rust/comments/fbenua/a_halfhour_to_learn_rust/".to_string(),
    }];
    let message = digest_message("rust", &posts);
    assert_eq!(
        message,
        "Weekly popular posts from: \"rust\"\n\nA half-hour to learn Rust\nhttps://reddit.com/r/rust/comments/fbenua/a_halfhour_to_learn_rust/\n\n"
    );
}

#[test]
fn digest_with_no_posts_is_header_only() {
    let posts: Vec<Post> = vec![];
    let message = digest_message("rust", &posts);
    assert_eq!(message, "Weekly popular posts from: \"rust\"\n\n");
}

#[test]
fn delivery_updates_last_sent_on_success() {
    let mut db = DbClient::new();
    db.create_user("123", "t").unwrap();
    let created = db.subscribe("123", "emptytopic", 4, 9).unwrap();

    // The digest for a topic with no items still goes out...
    let message = digest_message(created.subreddit.as_str(), &vec![]);
    assert_eq!(message, "Weekly popular posts from: \"emptytopic\"\n\n");

    // ...and once the gateway accepted it, the delivery is recorded.
    let now = at(10, 4, 9);
    db.update_last_sent(created.id, now).unwrap();
    let subs = db.get_subscriptions().unwrap();
    assert_eq!(subs[0].last_sent_at, Some(now));
}
