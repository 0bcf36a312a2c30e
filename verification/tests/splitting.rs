use ten_minute_art::chunks::{split_message, try_split_message};
use ten_minute_art::config::TtsConfig;
use ten_minute_art::delivery::Outgoing;
use ten_minute_art::session::ReplyMessage;
use ten_minute_art::{discord, telegram};

#[test]
fn short_messages_stay_whole() {
    assert_eq!(split_message("", 10), vec![""]);
    assert_eq!(split_message("0123456789", 10), vec!["0123456789"]);
}

#[test]
fn paragraphs_are_kept_together_where_they_fit() {
    assert_eq!(split_message("one\n\ntwo\nthree\n\nfour", 12), vec!["one", "two\nthree", "four"]);
    assert_eq!(split_message("aaa\nbbb\nccc", 9), vec!["aaa\nbbb", "ccc"]);
    assert_eq!(split_message("abcdefgh", 3), vec!["abc", "def", "gh"]);
    // A break at the very start leaves an empty part.
    assert_eq!(split_message("\n\nabcdef", 4), vec!["", "abcd", "ef"]);
    assert_eq!(split_message("abc\n\n\n\n", 4), vec!["abc"]);
}

#[test]
fn a_part_never_ends_within_a_character() {
    assert!(try_split_message("ééé", 3).is_none());
    assert_eq!(try_split_message("ééé", 4), Some(vec!["éé", "é"]));
    assert!(try_split_message("abc", 0).is_none());
}

fn reply(text: &str) -> ReplyMessage {
    ReplyMessage { text: text.to_string(), with_tts: true }
}

fn tts(enabled: bool) -> TtsConfig {
    TtsConfig {
        enabled,
        base_url: String::new(),
        api_key: String::new(),
        model: String::new(),
        voice: String::new(),
        format: "mp3".to_string(),
    }
}

fn texts(list: &[Outgoing]) -> Vec<usize> {
    list.iter()
        .filter_map(|o| match o {
            Outgoing::Text(t) => Some(t.len()),
            Outgoing::Speech(_) => None,
        })
        .collect()
}

#[test]
fn long_replies_are_cut_at_two_thousand_bytes() {
    let long = reply(&format!("{}\n\n{}", "a".repeat(1500), "b".repeat(1900)));
    assert_eq!(texts(&discord::outgoing(&long, &tts(false)).unwrap()), vec![1500, 1900]);
    let unbroken = reply(&"c".repeat(4001));
    assert_eq!(texts(&discord::outgoing(&unbroken, &tts(false)).unwrap()), vec![2000, 2000, 1]);
    assert!(discord::outgoing(&reply(&format!("a{}", "é".repeat(1000))), &tts(false)).is_none());
}

#[test]
fn replies_are_spoken_after_their_text() {
    let long = reply(&format!("{} https://x", "a ".repeat(1500)));
    let list = discord::outgoing(&long, &tts(true)).unwrap();
    assert_eq!(list.len(), 3);
    assert!(matches!(&list[0], Outgoing::Text(_)) && matches!(&list[1], Outgoing::Text(_)));
    assert!(matches!(&list[2], Outgoing::Speech(t) if t.ends_with("a a") && t.starts_with("a a")));
    // One message on Telegram, however long.
    let list = telegram::outgoing(&long, &tts(true));
    assert_eq!(list.len(), 2);
    assert!(matches!(&list[0], Outgoing::Text(t) if *t == long.text));
    assert!(matches!(&list[1], Outgoing::Speech(_)));
    assert_eq!(telegram::outgoing(&long, &tts(false)).len(), 1);
}
