use baza::telegram::{escape_markdown, telegram_message, TelegramError};

#[test]
fn escapes_markdown_specials() {
    assert_eq!(escape_markdown("a_b*c"), "a\\_b\\*c");
    assert_eq!(escape_markdown("1.2 GB (ok)!"), "1\\.2 GB \\(ok\\)\\!");
    assert_eq!(escape_markdown("plain text"), "plain text");
    assert_eq!(escape_markdown(""), "");
    assert_eq!(escape_markdown("_*[]()~`>#+-=|{}.!"), "\\_\\*\\[\\]\\(\\)\\~\\`\\>\\#\\+\\-\\=\\|\\{\\}\\.\\!");
}

#[test]
fn telegram_message_checks_settings() {
    assert_eq!(telegram_message(false, Some("t".into()), Some(1), "x", false, true).unwrap_err(), TelegramError::Disabled);
    assert_eq!(telegram_message(true, None, Some(1), "x", false, true).unwrap_err(), TelegramError::MissingToken);
    assert_eq!(telegram_message(true, Some("t".into()), None, "x", false, true).unwrap_err(), TelegramError::MissingChatId);
    assert_eq!(TelegramError::Disabled.message(), "Telegram notifications are disabled in config");
    assert_eq!(TelegramError::MissingToken.message(), "Telegram bot token is not set in config");
    assert_eq!(TelegramError::MissingChatId.message(), "Telegram chat ID is not set in config");
}

#[test]
fn telegram_message_fields() {
    let m = telegram_message(true, Some("123:abc".into()), Some(-42), "hello", true, true).unwrap();
    assert_eq!(m.url, "https://api.telegram.org/bot123:abc/sendMessage");
    assert_eq!(m.chat_id, -42);
    assert_eq!(m.text, "hello");
    assert_eq!(m.parse_mode.as_deref(), Some("MarkdownV2"));
    assert_eq!(m.disable_notification, Some(true));
    let m = telegram_message(true, Some("t".into()), Some(1), "x", false, false).unwrap();
    assert_eq!(m.parse_mode, None);
    assert_eq!(m.disable_notification, None);
}
