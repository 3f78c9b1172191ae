use reddit_bot::dialogs::subscribe::Subscribe;
use reddit_bot::dialogs::unsubscribe::Unsubscribe;
use reddit_bot::dialogs::{decode_pairs, encode_pairs, Dialog};
use reddit_bot::errors::BotError;
use reddit_bot::models::DialogEntity;
use reddit_bot::store::DbClient;

#[test]
fn conversion_works() {
    let dialog = Dialog::<Subscribe>::new("123".to_string());
    let command: DialogEntity = dialog.into_entity();

    assert_eq!(
        command,
        DialogEntity {
            user_id: "123".to_string(),
            command: "/subscribe".to_string(),
            step: "Start".to_string(),
            data: "{}".to_string(),
        }
    );
    let mut dialog_converted: Dialog<Subscribe> = Dialog::<Subscribe>::from_entity(&command).unwrap();
    assert_eq!(dialog_converted, dialog);

    dialog_converted.data.push((Subscribe::Start, "payload".to_string()));
    dialog_converted.current_step = Subscribe::Subreddit;
    let command_converted: DialogEntity = dialog_converted.into_entity();

    assert_eq!(
        command_converted,
        DialogEntity {
            user_id: "123".to_string(),
            command: "/subscribe".to_string(),
            step: "Subreddit".to_string(),
            data: r#"{"Start":"payload"}"#.to_string(),
        }
    );

    let dialog_converted_again: Dialog<Subscribe> =
        Dialog::<Subscribe>::from_entity(&command_converted).unwrap();
    assert_eq!(dialog_converted_again, dialog_converted);
}

#[test]
fn malformed_state_is_refused() {
    let entity = DialogEntity {
        user_id: "123".to_string(),
        command: "/subscribe".to_string(),
        step: "Bogus".to_string(),
        data: "{}".to_string(),
    };
    let err = Dialog::<Subscribe>::from_entity(&entity).unwrap_err();
    assert_eq!(err, BotError::MalformedState);

    let entity = DialogEntity {
        user_id: "123".to_string(),
        command: "/subscribe".to_string(),
        step: "Start".to_string(),
        data: "not a map".to_string(),
    };
    let err = Dialog::<Subscribe>::from_entity(&entity).unwrap_err();
    assert_eq!(err, BotError::MalformedState);
}

#[test]
fn codec_round_trip_with_escapes() {
    let pairs = vec![
        ("Start".to_string(), "a\"b\\c\nd\te\r".to_string()),
        ("Subreddit".to_string(), "plain".to_string()),
    ];
    let encoded = encode_pairs(&pairs);
    let decoded = decode_pairs(encoded.as_str()).unwrap();
    assert_eq!(decoded, pairs);
}

#[test]
fn completed_subscribe_dialog_persists_subscription() {
    let mut db = DbClient::new();
    db.create_user("123", "2024-05-10T09:00:00+00:00").unwrap();

    let mut d = Dialog::<Subscribe>::new("123".to_string());
    d.handle_current_step(&mut db, "", None).unwrap();

    let e = db.get_users_dialog("123").unwrap();
    assert_eq!(e.step, "Subreddit");
    let mut d = Dialog::<Subscribe>::from_entity(&e).unwrap();
    d.handle_current_step(&mut db, "rust", None).unwrap();

    let e = db.get_users_dialog("123").unwrap();
    assert_eq!(e.step, "Weekday");
    let mut d = Dialog::<Subscribe>::from_entity(&e).unwrap();
    d.handle_current_step(&mut db, "1", None).unwrap();

    let e = db.get_users_dialog("123").unwrap();
    assert_eq!(e.step, "Time");
    let mut d = Dialog::<Subscribe>::from_entity(&e).unwrap();
    let out = d.handle_current_step(&mut db, "1", None).unwrap();

    let subs = db.get_user_subscriptions("123").unwrap();
    assert_eq!(subs.len(), 1);
    assert_eq!(subs[0].subreddit, "rust");
    assert_eq!(subs[0].send_on, 1);
    assert_eq!(subs[0].send_at, 1);
    // The new row starts unstamped; only the delivery pipeline sets the stamp.
    assert_eq!(subs[0].last_sent_at, None);
    assert!(db.get_users_dialog("123").is_err());
    assert_eq!(out.deliveries.len(), 1);
    assert_eq!(out.deliveries[0].subreddit, "rust");
}

#[test]
fn invalid_subreddit_aborts_step_without_commit() {
    let mut db = DbClient::new();
    db.create_user("123", "t").unwrap();

    let mut d = Dialog::<Subscribe>::new("123".to_string());
    d.handle_current_step(&mut db, "", None).unwrap();

    let e = db.get_users_dialog("123").unwrap();
    let mut d = Dialog::<Subscribe>::from_entity(&e).unwrap();
    let bad = "xxx".to_string();
    let out = d.handle_current_step(&mut db, "aaa xxx", Some(&bad)).unwrap();
    assert_eq!(out.messages.len(), 1);
    assert_eq!(out.messages[0].text, "Invalid subreddit - xxx, try again");

    // The dialog row did not advance and nothing was committed.
    let e = db.get_users_dialog("123").unwrap();
    assert_eq!(e.step, "Subreddit");
    assert_eq!(db.get_subscriptions().unwrap().len(), 0);
}

#[test]
fn duplicate_topic_is_reported_and_rest_proceeds() {
    let mut db = DbClient::new();
    db.create_user("123", "t").unwrap();
    db.subscribe("123", "rust", 1, 1).unwrap();

    let mut d = Dialog::<Subscribe>::new("123".to_string());
    d.handle_current_step(&mut db, "", None).unwrap();
    let e = db.get_users_dialog("123").unwrap();
    let mut d = Dialog::<Subscribe>::from_entity(&e).unwrap();
    d.handle_current_step(&mut db, "rust golang", None).unwrap();
    let e = db.get_users_dialog("123").unwrap();
    let mut d = Dialog::<Subscribe>::from_entity(&e).unwrap();
    d.handle_current_step(&mut db, "1", None).unwrap();
    let e = db.get_users_dialog("123").unwrap();
    let mut d = Dialog::<Subscribe>::from_entity(&e).unwrap();
    let out = d.handle_current_step(&mut db, "1", None).unwrap();

    // One duplicate report, one fresh subscription, one closing hint.
    assert!(out.messages.iter().any(|m| m.text == "Already subscribed to rust"));
    let subs = db.get_user_subscriptions("123").unwrap();
    assert_eq!(subs.len(), 2);
    assert_eq!(subs[0].subreddit, "golang");
    assert_eq!(subs[1].subreddit, "rust");
}

#[test]
fn unsubscribe_dialog_deletes_row() {
    let mut db = DbClient::new();
    db.create_user("123", "t").unwrap();
    db.subscribe("123", "rust", 1, 1).unwrap();

    let mut d = Dialog::<Unsubscribe>::new("123".to_string());
    let out = d.handle_current_step(&mut db, "").unwrap();
    assert_eq!(out.messages.len(), 1);
    assert_eq!(out.messages[0].text, "Select subreddit");
    assert_eq!(db.get_users_dialog("123").unwrap().step, "Subreddit");

    let e = db.get_users_dialog("123").unwrap();
    let mut d = Dialog::<Unsubscribe>::from_entity(&e).unwrap();
    let out = d.handle_current_step(&mut db, "rust").unwrap();
    assert_eq!(out.messages[0].text, "Unsubscribed from: rust");
    assert_eq!(db.get_user_subscriptions("123").unwrap().len(), 0);
    assert!(db.get_users_dialog("123").is_err());
}
