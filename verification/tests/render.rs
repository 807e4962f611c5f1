use slackbot::bot::SlackBot;
use slackbot::manager::VersionCommand;
use slackbot::response::{resolve, SlackResponse};

fn bot() -> SlackBot<VersionCommand> {
    SlackBot::new(8080)
}

fn pairs(entries: &[(&str, &str)]) -> Vec<(String, String)> {
    entries.iter().map(|(k, v)| (k.to_string(), v.to_string())).collect()
}

#[test]
fn new_response_is_empty() {
    let resp = SlackResponse::new();
    assert!(resp.response.is_empty());
    assert_eq!(resp.username, None);
    assert_eq!(resp.icon_url, None);
    assert_eq!(resp.icon_emoji, None);
}

#[test]
fn reply_appends_in_call_order() {
    let mut resp = SlackResponse::new();
    resp.reply("one");
    resp.reply("");
    resp.reply("three");
    assert_eq!(resp.response, vec!["one".to_string(), String::new(), "three".to_string()]);
}

#[test]
fn text_is_lines_joined_by_newline() {
    let mut resp = SlackResponse::new();
    resp.reply("one");
    resp.reply("two");
    resp.reply("three");
    assert_eq!(resp.entries(&bot()), pairs(&[("text", "one\ntwo\nthree")]));
    assert_eq!(resp.to_json(&bot()), "{\"text\":\"one\\ntwo\\nthree\"}");
}

#[test]
fn text_of_single_line_has_no_newline() {
    let mut resp = SlackResponse::new();
    resp.reply("Hello, Alice");
    assert_eq!(resp.to_json(&bot()), "{\"text\":\"Hello, Alice\"}");
}

#[test]
fn text_is_empty_without_replies() {
    let resp = SlackResponse::new();
    assert_eq!(resp.entries(&bot()), pairs(&[("text", "")]));
    assert_eq!(resp.to_json(&bot()), "{\"text\":\"\"}");
}

#[test]
fn json_escapes_quotes_backslashes_and_controls() {
    let mut resp = SlackResponse::new();
    resp.reply("say \"hi\" \\ \t\u{1}");
    assert_eq!(resp.to_json(&bot()), "{\"text\":\"say \\\"hi\\\" \\\\ \\t\\u0001\"}");
}

#[test]
fn json_keeps_non_ascii_text() {
    let mut resp = SlackResponse::new();
    resp.reply("h\u{e9}llo \u{1F600}");
    assert_eq!(resp.to_json(&bot()), "{\"text\":\"h\u{e9}llo \u{1F600}\"}");
}

#[test]
fn overrides_of_response_are_rendered() {
    let mut resp = SlackResponse::new();
    resp.reply("hi");
    resp.username = Some("resp-name".to_string());
    resp.icon_url = Some("http://resp/icon.png".to_string());
    resp.icon_emoji = Some(":resp:".to_string());
    assert_eq!(
        resp.entries(&bot()),
        pairs(&[
            ("text", "hi"),
            ("icon_url", "http://resp/icon.png"),
            ("icon_emoji", ":resp:"),
            ("username", "resp-name"),
        ])
    );
    assert_eq!(
        resp.to_json(&bot()),
        "{\"icon_emoji\":\":resp:\",\"icon_url\":\"http://resp/icon.png\",\"text\":\"hi\",\"username\":\"resp-name\"}"
    );
}

#[test]
fn defaults_of_bot_are_rendered() {
    let mut bot = bot();
    bot.username = Some("bot-name".to_string());
    bot.icon_url = Some("http://bot/icon.png".to_string());
    bot.icon_emoji = Some(":bot:".to_string());
    let mut resp = SlackResponse::new();
    resp.reply("hi");
    assert_eq!(
        resp.to_json(&bot),
        "{\"icon_emoji\":\":bot:\",\"icon_url\":\"http://bot/icon.png\",\"text\":\"hi\",\"username\":\"bot-name\"}"
    );
}

#[test]
fn overrides_win_over_defaults() {
    let mut bot = bot();
    bot.username = Some("bot-name".to_string());
    bot.icon_url = Some("http://bot/icon.png".to_string());
    bot.icon_emoji = Some(":bot:".to_string());
    let mut resp = SlackResponse::new();
    resp.username = Some("resp-name".to_string());
    resp.icon_url = Some("http://resp/icon.png".to_string());
    resp.icon_emoji = Some(":resp:".to_string());
    assert_eq!(
        resp.to_json(&bot),
        "{\"icon_emoji\":\":resp:\",\"icon_url\":\"http://resp/icon.png\",\"text\":\"\",\"username\":\"resp-name\"}"
    );
}

#[test]
fn fallback_is_per_field() {
    let mut bot = bot();
    bot.username = Some("bot-name".to_string());
    bot.icon_emoji = Some(":bot:".to_string());
    let mut resp = SlackResponse::new();
    resp.reply("hi");
    resp.icon_emoji = Some(":resp:".to_string());
    assert_eq!(
        resp.entries(&bot),
        pairs(&[("text", "hi"), ("icon_emoji", ":resp:"), ("username", "bot-name")])
    );
    assert_eq!(
        resp.to_json(&bot),
        "{\"icon_emoji\":\":resp:\",\"text\":\"hi\",\"username\":\"bot-name\"}"
    );
}

#[test]
fn username_override_alone_falls_back_for_icon_emoji() {
    let mut bot = bot();
    bot.username = Some("bot-name".to_string());
    bot.icon_emoji = Some(":bot:".to_string());
    let mut resp = SlackResponse::new();
    resp.username = Some("resp-name".to_string());
    assert_eq!(
        resp.to_json(&bot),
        "{\"icon_emoji\":\":bot:\",\"text\":\"\",\"username\":\"resp-name\"}"
    );
}

#[test]
fn unset_settings_are_omitted() {
    let mut bot = bot();
    bot.icon_url = Some("http://bot/icon.png".to_string());
    let resp = SlackResponse::new();
    assert_eq!(resp.to_json(&bot), "{\"icon_url\":\"http://bot/icon.png\",\"text\":\"\"}");
}

#[test]
fn resolve_prefers_override() {
    let over = Some("o".to_string());
    let default = Some("d".to_string());
    let none: Option<String> = None;
    assert_eq!(resolve(&over, &default), &over);
    assert_eq!(resolve(&none, &default), &default);
    assert_eq!(resolve(&over, &none), &over);
    assert_eq!(resolve(&none, &none), &none);
}
