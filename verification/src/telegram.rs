//! The messaging gateway's data: the message shapes the bot produces and
//! the button-grid builder. Sending runs outside the crate; the logic here
//! only decides what a message holds.

use vstd::prelude::*;

verus! {

/// One button of an inline grid.
#[derive(Debug)]
pub struct InlineKeyboardButton {
    pub text: String,
    pub callback_data: String,
}

impl InlineKeyboardButton {
    /// A field-by-field copy.
    pub fn duplicate(&self) -> (r: InlineKeyboardButton)
        ensures
            r == *self,
    {
        InlineKeyboardButton {
            text: self.text.clone(),
            callback_data: self.callback_data.clone(),
        }
    }
}

/// A grid of buttons, row by row.
#[derive(Debug)]
pub struct InlineKeyboardMarkup {
    pub inline_keyboard: Vec<Vec<InlineKeyboardButton>>,
}

/// The reply-markup shapes the gateway accepts.
#[derive(Debug)]
pub enum ReplyMarkup {
    InlineKeyboardMarkup(InlineKeyboardMarkup),
}

/// An outbound text message.
#[derive(Debug)]
pub struct Message {
    pub chat_id: String,
    pub text: String,
    pub disable_notification: bool,
    pub disable_web_page_preview: bool,
    pub reply_markup: Option<ReplyMarkup>,
}

impl Default for Message {
    /// An empty message addressed to nobody.
    fn default() -> (r: Message)
        ensures
            r.chat_id@.len() == 0,
            r.text@.len() == 0,
            !r.disable_notification,
            !r.disable_web_page_preview,
            r.reply_markup is None,
    {
        Message {
            chat_id: String::new(),
            text: String::new(),
            disable_notification: false,
            disable_web_page_preview: false,
            reply_markup: None,
        }
    }
}

/// A plain text message to one chat, with every flag off.
pub fn text_message(chat_id: &str, text: String) -> (m: Message)
    ensures
        m.chat_id@ == chat_id@,
        m.text == text,
        !m.disable_notification,
        !m.disable_web_page_preview,
        m.reply_markup is None,
{
    Message {
        chat_id: chat_id.to_owned(),
        text,
        disable_notification: false,
        disable_web_page_preview: false,
        reply_markup: None,
    }
}

/// An edit of a sent message's text.
#[derive(Debug)]
pub struct EditMessage {
    pub chat_id: String,
    pub message_id: String,
    pub text: String,
    pub disable_notification: bool,
    pub disable_web_page_preview: bool,
    pub reply_markup: Option<ReplyMarkup>,
}

/// An outbound image message.
#[derive(Debug)]
pub struct Image {
    pub chat_id: String,
    pub photo: String,
    pub disable_notification: bool,
}

/// The media descriptor of an image edit.
#[derive(Debug)]
pub struct Media {
    pub type_: String,
}

/// An edit that replaces a sent message's image.
#[derive(Debug)]
pub struct EditImage {
    pub chat_id: String,
    pub message_id: String,
    pub photo: String,
    pub disable_notification: bool,
    pub media: Media,
}

/// Where the gateway is reached, and with which token. The HTTP calls run
/// outside the crate; this only carries the configuration.
pub struct TelegramClient {
    pub token: String,
    pub domain: String,
}

impl TelegramClient {
    /// A client for the public gateway.
    pub fn new(token: String) -> (r: TelegramClient)
        ensures
            r.token == token,
            r.domain@ == "https://api.telegram.org"@,
    {
        TelegramClient { token, domain: "https://api.telegram.org".to_owned() }
    }

    /// A client for any gateway address, as tests need.
    pub fn new_with(token: String, domain: String) -> (r: TelegramClient)
        ensures
            r.token == token,
            r.domain == domain,
    {
        TelegramClient { token, domain }
    }
}

/// The rows a button list folds into: full rows of `per` buttons and a
/// shorter last row for the remainder. A row width of zero keeps every
/// button on a single row.
pub open spec fn spec_chunk_rows(s: Seq<InlineKeyboardButton>, per: int) -> Seq<
    Seq<InlineKeyboardButton>,
>
    decreases s.len(),
{
    if s.len() == 0 {
        Seq::empty()
    } else if per <= 0 || s.len() <= per {
        seq![s]
    } else {
        seq![s.take(per)] + spec_chunk_rows(s.skip(per), per)
    }
}

/// Folds a button list into rows of at most `buttons_per_row` buttons.
pub fn build_inline_keyboard_markup(
    buttons: Vec<InlineKeyboardButton>,
    buttons_per_row: usize,
) -> (r: InlineKeyboardMarkup)
    ensures
        r.inline_keyboard@.len() == spec_chunk_rows(buttons@, buttons_per_row as int).len(),
        forall|i: int|
            0 <= i < r.inline_keyboard@.len() ==> (#[trigger] r.inline_keyboard@[i])@
                == spec_chunk_rows(buttons@, buttons_per_row as int)[i],
{
    let n = buttons.len();
    let mut rows: Vec<Vec<InlineKeyboardButton>> = Vec::new();
    if buttons_per_row == 0 {
        if n > 0 {
            rows.push(buttons);
        }
        return InlineKeyboardMarkup { inline_keyboard: rows };
    }
    let ghost all = spec_chunk_rows(buttons@, buttons_per_row as int);
    let mut j: usize = 0;
    proof {
        assert(buttons@.skip(0) =~= buttons@);
    }
    while j < n
        invariant
            0 < buttons_per_row,
            0 <= j <= n,
            n == buttons@.len(),
            all == spec_chunk_rows(buttons@, buttons_per_row as int),
            rows@.len() <= all.len(),
            forall|m: int| 0 <= m < rows@.len() ==> (#[trigger] rows@[m])@ == all[m],
            all.skip(rows@.len() as int) == spec_chunk_rows(
                buttons@.skip(j as int),
                buttons_per_row as int,
            ),
        decreases n - j,
    {
        let eaten = if n - j < buttons_per_row {
            n - j
        } else {
            buttons_per_row
        };
        let mut row: Vec<InlineKeyboardButton> = Vec::new();
        let mut m: usize = 0;
        while m < eaten
            invariant
                0 <= m <= eaten,
                j + eaten <= n,
                n == buttons@.len(),
                row@ == buttons@.subrange(j as int, j + m),
            decreases eaten - m,
        {
            row.push(buttons[j + m].duplicate());
            proof {
                assert(row@ =~= buttons@.subrange(j as int, j + m + 1));
            }
            m += 1;
        }
        proof {
            let per = buttons_per_row as int;
            let rest = buttons@.skip(j as int);
            let k = rows@.len() as int;
            assert(rest.len() == n - j);
            if n - j <= per {
                assert(row@ =~= rest);
                assert(spec_chunk_rows(rest, per) == seq![rest]);
                assert(all.skip(k).len() == 1);
                assert(k < all.len());
                assert(all.skip(k)[0] == rest);
                assert(all[k] == rest);
                assert(all.skip(k + 1) =~= spec_chunk_rows(buttons@.skip(j + eaten), per)) by {
                    assert(all.skip(k + 1) =~= all.skip(k).skip(1));
                    assert(buttons@.skip(j + eaten).len() == 0);
                }
            } else {
                assert(row@ =~= rest.take(per));
                assert(spec_chunk_rows(rest, per) == seq![rest.take(per)] + spec_chunk_rows(
                    rest.skip(per),
                    per,
                ));
                assert(all.skip(k).len() >= 1);
                assert(k < all.len());
                assert(all.skip(k)[0] == rest.take(per));
                assert(all[k] == rest.take(per));
                assert(all.skip(k + 1) =~= spec_chunk_rows(buttons@.skip(j + eaten), per)) by {
                    assert(all.skip(k + 1) =~= all.skip(k).skip(1));
                    assert(rest.skip(per) =~= buttons@.skip(j + eaten));
                }
            }
        }
        rows.push(row);
        j += eaten;
    }
    proof {
        let k = rows@.len() as int;
        assert(buttons@.skip(n as int).len() == 0);
        assert(spec_chunk_rows(buttons@.skip(n as int), buttons_per_row as int) == Seq::<
            Seq<InlineKeyboardButton>,
        >::empty());
        assert(all.skip(k).len() == 0);
        assert(rows@.len() == all.len());
    }
    InlineKeyboardMarkup { inline_keyboard: rows }
}

} // verus!
