use reddit_bot::reddit::RedditClient;
use reddit_bot::telegram::{build_inline_keyboard_markup, InlineKeyboardButton, TelegramClient};

#[test]
fn client_correct_domain() {
    let reddit_client = RedditClient::new();
    assert_eq!(reddit_client.base_url, "https://reddit.com");
}

#[test]
fn telegram_correct_domain() {
    let telegram_client = TelegramClient::new("token".to_string());
    assert_eq!(telegram_client.domain, "https://api.telegram.org");
}

fn buttons(n: usize) -> Vec<InlineKeyboardButton> {
    let mut out = Vec::new();
    let mut i: usize = 0;
    while i < n {
        out.push(InlineKeyboardButton {
            text: format!("b{}", i),
            callback_data: format!("{}", i),
        });
        i += 1;
    }
    out
}

#[test]
fn keyboard_rows_of_two() {
    let markup = build_inline_keyboard_markup(buttons(7), 2);
    let lens: Vec<usize> = markup.inline_keyboard.iter().map(|r| r.len()).collect();
    assert_eq!(lens, [2, 2, 2, 1]);
    assert_eq!(markup.inline_keyboard[0][0].text, "b0");
    assert_eq!(markup.inline_keyboard[3][0].text, "b6");
}

#[test]
fn keyboard_rows_of_four() {
    let markup = build_inline_keyboard_markup(buttons(24), 4);
    let lens: Vec<usize> = markup.inline_keyboard.iter().map(|r| r.len()).collect();
    assert_eq!(lens, [4, 4, 4, 4, 4, 4]);
}

#[test]
fn keyboard_zero_width_keeps_one_row() {
    let markup = build_inline_keyboard_markup(buttons(3), 0);
    assert_eq!(markup.inline_keyboard.len(), 1);
    assert_eq!(markup.inline_keyboard[0].len(), 3);

    let markup = build_inline_keyboard_markup(buttons(0), 2);
    assert_eq!(markup.inline_keyboard.len(), 0);
}
