use reddit_bot::commands::{
    feedback, help, send_now, start, stop, subscribe, subscriptions, unsubscribe,
};
use reddit_bot::dialogs::feedback::Feedback;
use reddit_bot::dialogs::Dialog;
use reddit_bot::store::DbClient;

const USER_ID: &str = "123";
const AUTHOR_ID: &str = "42";

#[test]
fn start_success() {
    let mut db = DbClient::new();
    let messages = start(&mut db, USER_ID, "2024-05-10T09:00:00+00:00").unwrap();
    assert_eq!(messages.len(), 1);
    assert_eq!(messages[0].chat_id, USER_ID);
    assert_eq!(db.get_users().unwrap().len(), 1);
}

#[test]
fn start_existing_user() {
    let mut db = DbClient::new();
    start(&mut db, USER_ID, "t").unwrap();
    let messages = start(&mut db, USER_ID, "t").unwrap();
    assert_eq!(messages.len(), 1);
    assert_eq!(db.get_users().unwrap().len(), 1);
}

#[test]
fn stop_success() {
    let mut db = DbClient::new();
    start(&mut db, USER_ID, "t").unwrap();
    db.subscribe(USER_ID, "rust", 1, 1).unwrap();
    let messages = stop(&mut db, USER_ID).unwrap();
    assert_eq!(messages[0].text, "User and subscriptions deleted");
    assert_eq!(db.get_users().unwrap().len(), 0);
    assert_eq!(db.get_subscriptions().unwrap().len(), 0);
}

#[test]
fn subscribe_success() {
    let mut db = DbClient::new();
    start(&mut db, USER_ID, "t").unwrap();
    let out = subscribe(&mut db, USER_ID).unwrap();
    assert_eq!(out.messages.len(), 1);
    assert_eq!(db.get_users_dialog(USER_ID).unwrap().step, "Subreddit");
}

#[test]
fn subscribe_without_user() {
    let mut db = DbClient::new();
    let out = subscribe(&mut db, USER_ID).unwrap();
    assert_eq!(out.messages.len(), 1);
    assert_eq!(
        out.messages[0].text,
        "You need to call /start before setting up subscriptions"
    );
    assert!(db.get_users_dialog(USER_ID).is_err());
}

#[test]
fn unsubscribe_without_user() {
    let mut db = DbClient::new();
    let out = unsubscribe(&mut db, USER_ID).unwrap();
    assert_eq!(out.messages.len(), 1);
    assert_eq!(out.messages[0].text, "You have no subscriptions to unsubscribe from");
    assert!(db.get_users_dialog(USER_ID).is_err());
}

#[test]
fn subscriptions_success() {
    let mut db = DbClient::new();
    start(&mut db, USER_ID, "t").unwrap();
    db.subscribe(USER_ID, "rust", 1, 1).unwrap();
    let messages = subscriptions(&db, USER_ID).unwrap();
    assert_eq!(messages[0].text, "You are currently subscribed to:\nrust\n");
}

#[test]
fn subscriptions_no_subscriptions() {
    let mut db = DbClient::new();
    start(&mut db, USER_ID, "t").unwrap();
    let messages = subscriptions(&db, USER_ID).unwrap();
    assert_eq!(
        messages[0].text,
        "You haven't subscribed to anything yet. Subscribe using /subscribe command."
    );
}

#[test]
fn feedback_success() {
    let mut db = DbClient::new();
    start(&mut db, USER_ID, "t").unwrap();
    let out = feedback(&mut db, AUTHOR_ID, USER_ID).unwrap();
    assert_eq!(out.messages.len(), 1);
    assert_eq!(db.get_users_dialog(USER_ID).unwrap().step, "Input");

    let e = db.get_users_dialog(USER_ID).unwrap();
    let mut d = Dialog::<Feedback>::from_entity(&e).unwrap();
    let out = d.handle_current_step(&mut db, AUTHOR_ID, "love it").unwrap();
    assert_eq!(out.messages.len(), 2);
    assert_eq!(out.messages[0].chat_id, AUTHOR_ID);
    assert_eq!(out.messages[0].text, "Received input from user(123):\nlove it");
    assert_eq!(
        out.messages[1].text,
        "Sent your feedback to the author. Thanks for the input!"
    );
    assert!(db.get_users_dialog(USER_ID).is_err());
}

#[test]
fn feedback_without_user() {
    let mut db = DbClient::new();
    let out = feedback(&mut db, AUTHOR_ID, USER_ID).unwrap();
    assert_eq!(out.messages.len(), 1);
    assert_eq!(out.messages[0].text, "You need to call /start before interacting with me");
}

#[test]
fn send_now_success() {
    let mut db = DbClient::new();
    start(&mut db, USER_ID, "t").unwrap();
    db.subscribe(USER_ID, "rust", 1, 1).unwrap();
    let out = send_now(&db, USER_ID).unwrap();
    assert_eq!(out.deliveries.len(), 1);
    assert_eq!(out.deliveries[0].subreddit, "rust");
    assert_eq!(out.messages.len(), 0);
}

#[test]
fn send_now_no_subscriptions() {
    let mut db = DbClient::new();
    start(&mut db, USER_ID, "t").unwrap();
    let out = send_now(&db, USER_ID).unwrap();
    assert_eq!(out.deliveries.len(), 0);
    assert_eq!(
        out.messages[0].text,
        "You haven't subscribed to anything yet. Subscribe using /subscribe command."
    );
}

#[test]
fn help_success() {
    let message = help(USER_ID);
    assert_eq!(message.chat_id, USER_ID);
    assert!(message.text.contains("/subscribe"));
    assert!(message.text.contains("/sendnow"));
}
