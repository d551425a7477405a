//! Telegram notifications: escaping text for MarkdownV2, and the message a
//! notification sends.
use vstd::prelude::*;

use crate::text::{chars_of, push_char};

verus! {

/// The characters that MarkdownV2 needs escaped.
pub open spec fn is_markdown_special(c: char) -> bool {
    ||| c == '_' || c == '*' || c == '[' || c == ']' || c == '(' || c == ')'
    ||| c == '~' || c == '`' || c == '>' || c == '#' || c == '+' || c == '-'
    ||| c == '=' || c == '|' || c == '{' || c == '}' || c == '.' || c == '!'
}

/// `s` with a backslash before each MarkdownV2 special character.
pub open spec fn markdown_escaped(s: Seq<char>) -> Seq<char>
    decreases s.len(),
{
    if s.len() == 0 {
        s
    } else if is_markdown_special(s.last()) {
        markdown_escaped(s.drop_last()).push('\\').push(s.last())
    } else {
        markdown_escaped(s.drop_last()).push(s.last())
    }
}

/// `text` with a backslash before each MarkdownV2 special character.
pub fn escape_markdown(text: &str) -> (r: String)
    ensures
        r@ == markdown_escaped(text@),
{
    let v = chars_of(text);
    let mut r = String::new();
    let mut i: usize = 0;
    assert(v@.take(0) == Seq::<char>::empty());
    while i < v.len()
        invariant
            i <= v.len(),
            r@ == markdown_escaped(v@.take(i as int)),
        decreases v.len() - i,
    {
        let c = v[i];
        assert(v@.take(i + 1).drop_last() == v@.take(i as int));
        assert(v@.take(i + 1).last() == c);
        if c == '_' || c == '*' || c == '[' || c == ']' || c == '(' || c == ')' || c == '~' || c
            == '`' || c == '>' || c == '#' || c == '+' || c == '-' || c == '=' || c == '|' || c
            == '{' || c == '}' || c == '.' || c == '!' {
            push_char(&mut r, '\\');
        }
        push_char(&mut r, c);
        i = i + 1;
    }
    assert(v@.take(v.len() as int) == text@);
    r
}

/// A message to send through the Telegram Bot API.
#[derive(Debug)]
pub struct TelegramMessage {
    /// The `sendMessage` address of the bot.
    pub url: String,
    pub chat_id: i64,
    pub text: String,
    /// `MarkdownV2` where the text is Markdown.
    pub parse_mode: Option<String>,
    /// `true` where the message is to arrive silently.
    pub disable_notification: Option<bool>,
}

/// Why no notification can be sent.
#[derive(Debug, Clone, Copy, PartialEq, Eq, Structural)]
pub enum TelegramError {
    Disabled,
    MissingToken,
    MissingChatId,
}

impl TelegramError {
    /// The message shown to the user.
    pub fn message(&self) -> (s: String)
        ensures
            s@ == match self {
                TelegramError::Disabled => "Telegram notifications are disabled in config"@,
                TelegramError::MissingToken => "Telegram bot token is not set in config"@,
                TelegramError::MissingChatId => "Telegram chat ID is not set in config"@,
            },
    {
        match self {
            TelegramError::Disabled => String::from_str("Telegram notifications are disabled in config"),
            TelegramError::MissingToken => String::from_str("Telegram bot token is not set in config"),
            TelegramError::MissingChatId => String::from_str("Telegram chat ID is not set in config"),
        }
    }
}

/// The message that notifies `text` through the bot with `token` to `chat_id`,
/// where notifications are enabled and both are set (checked in that order).
pub fn telegram_message(
    enabled: bool,
    token: Option<String>,
    chat_id: Option<i64>,
    text: &str,
    silent: bool,
    markdown: bool,
) -> (r: Result<TelegramMessage, TelegramError>)
    ensures
        !enabled ==> r == Err::<TelegramMessage, TelegramError>(TelegramError::Disabled),
        enabled && token is None ==> r == Err::<TelegramMessage, TelegramError>(
            TelegramError::MissingToken,
        ),
        enabled && token is Some && chat_id is None ==> r == Err::<TelegramMessage, TelegramError>(
            TelegramError::MissingChatId,
        ),
        enabled && token is Some && chat_id is Some ==> (r matches Ok(m) && {
            &&& m.url@ == "https://api.telegram.org/bot"@ + token->0@ + "/sendMessage"@
            &&& m.chat_id == chat_id->0
            &&& m.text@ == text@
            &&& (if markdown {
                m.parse_mode matches Some(p) && p@ == "MarkdownV2"@
            } else {
                m.parse_mode is None
            })
            &&& m.disable_notification == (if silent {
                Some(true)
            } else {
                None::<bool>
            })
        }),
{
    if !enabled {
        return Err(TelegramError::Disabled);
    }
    let token = match token {
        Some(t) => t,
        None => return Err(TelegramError::MissingToken),
    };
    let chat_id = match chat_id {
        Some(c) => c,
        None => return Err(TelegramError::MissingChatId),
    };
    let url = String::from_str("https://api.telegram.org/bot").concat(token.as_str()).concat(
        "/sendMessage",
    );
    let parse_mode = if markdown {
        Some(String::from_str("MarkdownV2"))
    } else {
        None
    };
    let disable_notification = if silent {
        Some(true)
    } else {
        None
    };
    Ok(TelegramMessage {
        url,
        chat_id,
        text: String::from_str(text),
        parse_mode,
        disable_notification,
    })
}

} // verus!
