use reddit_bot::models::DialogEntity;
use reddit_bot::store::DbClient;
use reddit_bot::time::Timestamp;

fn test_now() -> Timestamp {
    Timestamp { year: 2024, month: 5, day: 10, weekday: 4, hour: 9 }
}

const USER_ID: &str = "1";

#[test]
fn users() {
    let mut client = DbClient::new();
    let result = client.get_users().unwrap();
    assert_eq!(result.len(), 0);

    client.create_user(USER_ID, "2024-05-10T09:00:00+00:00").unwrap();
    let result = client.get_users().unwrap();
    assert_eq!(result.len(), 1);

    let result = client.create_user(USER_ID, "2024-05-10T09:00:00+00:00").unwrap_err();
    let result = result.message();
    assert!(result.contains("UNIQUE constraint failed: users.id"));

    client.delete_user(USER_ID).unwrap();
    let result = client.get_users().unwrap();
    assert_eq!(result.len(), 0);
}

#[test]
fn user_subscriptions() {
    let mut client = DbClient::new();
    client.create_user(USER_ID, "2024-05-10T09:00:00+00:00").unwrap();

    let result = client.get_user_subscriptions(USER_ID).unwrap();
    assert_eq!(result.len(), 0);

    client.subscribe(USER_ID, "rust", 0, 12).unwrap();

    let result = client.get_user_subscriptions(USER_ID).unwrap();
    assert_eq!(result.len(), 1);
    assert_eq!(result[0].subreddit, "rust");

    let result = client.subscribe(USER_ID, "rust", 0, 12).unwrap_err();
    let result = result.message();
    assert!(result.contains(
        "UNIQUE constraint failed: users_subscriptions.user_id, users_subscriptions.subreddit"
    ));

    client.subscribe(USER_ID, "Whatcouldgowrong", 0, 12).unwrap();
    let result = client.get_user_subscriptions(USER_ID).unwrap();
    assert_eq!(result.len(), 2);
    assert_eq!(result[0].subreddit, "Whatcouldgowrong");
    assert_eq!(result[1].subreddit, "rust");

    client.unsubscribe(USER_ID, "rust").unwrap();
    let result = client.get_user_subscriptions(USER_ID).unwrap();
    assert_eq!(result.len(), 1);
    assert_eq!(result[0].subreddit, "Whatcouldgowrong");

    client.delete_user(USER_ID).unwrap();
    let result = client.get_user_subscriptions(USER_ID).unwrap();
    assert_eq!(result.len(), 0);
}

#[test]
fn subscriptions() {
    const SECOND_USER_ID: &str = "2";

    let mut client = DbClient::new();
    client.create_user(USER_ID, "2024-05-10T09:00:00+00:00").unwrap();
    client.create_user(SECOND_USER_ID, "2024-05-10T09:00:00+00:00").unwrap();

    let result = client.get_user_subscriptions(USER_ID).unwrap();
    assert_eq!(result.len(), 0);

    let result = client.get_user_subscriptions(SECOND_USER_ID).unwrap();
    assert_eq!(result.len(), 0);

    client.subscribe(USER_ID, "rust", 0, 12).unwrap();

    let result = client.get_user_subscriptions(SECOND_USER_ID).unwrap();
    assert_eq!(result.len(), 0);

    let result = client.get_subscriptions().unwrap();
    assert_eq!(result.len(), 1);
    assert_eq!(result[0].subreddit, "rust");
}

#[test]
fn update_last_sent() {
    let mut client = DbClient::new();
    client.create_user(USER_ID, "2024-05-10T09:00:00+00:00").unwrap();

    let result = client.get_user_subscriptions(USER_ID).unwrap();
    assert_eq!(result.len(), 0);

    client.subscribe(USER_ID, "rust", 0, 12).unwrap();

    let result = client.get_subscriptions().unwrap();
    assert_eq!(result.len(), 1);
    assert_eq!(result[0].subreddit, "rust");
    assert_eq!(result[0].send_on, 0);
    assert_eq!(result[0].send_at, 12);
    assert_eq!(result[0].last_sent_at, None);

    client.update_last_sent(result[0].id, test_now()).unwrap();
    let result = client.get_subscriptions().unwrap();
    assert!(result[0].last_sent_at.is_some());
}

#[test]
fn dialogs() {
    let mut client = DbClient::new();
    client.create_user(USER_ID, "2024-05-10T09:00:00+00:00").unwrap();

    let result = client.get_users_dialog(USER_ID);
    assert!(result.is_err());

    let dialog = DialogEntity {
        user_id: USER_ID.to_string(),
        command: "/subscribe".to_string(),
        step: "One".to_string(),
        data: "".to_string(),
    };

    client.insert_or_update_dialog(&dialog).unwrap();
    let result = client.get_users_dialog(USER_ID).unwrap();
    assert_eq!(result, dialog);

    let dialog2 = DialogEntity { step: "Two".to_string(), ..dialog };
    client.insert_or_update_dialog(&dialog2).unwrap();
    let result = client.get_users_dialog(USER_ID).unwrap();
    assert_eq!(result, dialog2);
}

#[test]
fn foreign_keys_enforced() {
    let mut client = DbClient::new();
    let err = client.subscribe("nobody", "rust", 0, 12).unwrap_err();
    assert!(err.message().contains("FOREIGN KEY constraint failed"));

    let dialog = DialogEntity {
        user_id: "nobody".to_string(),
        command: "/subscribe".to_string(),
        step: "Start".to_string(),
        data: "{}".to_string(),
    };
    let err = client.insert_or_update_dialog(&dialog).unwrap_err();
    assert!(err.message().contains("FOREIGN KEY constraint failed"));
}

#[test]
fn stop_cascades() {
    let mut client = DbClient::new();
    client.create_user(USER_ID, "t").unwrap();
    client.subscribe(USER_ID, "rust", 1, 1).unwrap();
    let dialog = DialogEntity {
        user_id: USER_ID.to_string(),
        command: "/feedback".to_string(),
        step: "Input".to_string(),
        data: "{}".to_string(),
    };
    client.insert_or_update_dialog(&dialog).unwrap();

    client.delete_user(USER_ID).unwrap();
    assert_eq!(client.get_users().unwrap().len(), 0);
    assert_eq!(client.get_subscriptions().unwrap().len(), 0);
    assert!(client.get_users_dialog(USER_ID).is_err());
}
