use ten_minute_art::config::{AsrConfig, OcrConfig, TtsConfig};
use ten_minute_art::delivery::{
    data_url, debug_message, download_name, ensure_asr_enabled, ensure_ocr_enabled, guess_mime,
    reply_texts, speech_request, spoken_text, vision_request, voice_file_name, Received,
    ServiceDisabled,
};
use ten_minute_art::discord;
use ten_minute_art::discord::{Attachment, DiscordInput, DiscordMessage};
use ten_minute_art::llm::{OCR_PROMPT, OCR_REQUEST};
use ten_minute_art::session::{CoreResponse, ReplyMessage};
use ten_minute_art::telegram;
use ten_minute_art::telegram::{
    next_poll_action, start_polling, PollAction, PollEvent, Polling, TelegramInput, TelegramMessage,
    TelegramPhotoSize, TelegramVoice,
};
use ten_minute_art::types::IncomingKind;

fn reply(text: &str) -> ReplyMessage {
    ReplyMessage { text: text.to_string(), with_tts: true }
}

fn tts(enabled: bool) -> TtsConfig {
    TtsConfig {
        enabled,
        base_url: "http://t".to_string(),
        api_key: "x".to_string(),
        model: "speak".to_string(),
        voice: "alloy".to_string(),
        format: "mp3".to_string(),
    }
}

fn ocr(enabled: bool) -> OcrConfig {
    OcrConfig {
        enabled,
        base_url: "http://o".to_string(),
        api_key: "x".to_string(),
        model: "see".to_string(),
    }
}

fn file(name: &str, content_type: Option<&str>) -> Attachment {
    Attachment {
        filename: name.to_string(),
        content_type: content_type.map(|t| t.to_string()),
        url: format!("https://cdn/{name}"),
    }
}

fn telegram_message() -> TelegramMessage {
    TelegramMessage { chat_id: -5, text: None, voice: None, photo: None }
}

fn photo(id: &str, width: i64, height: i64) -> TelegramPhotoSize {
    TelegramPhotoSize { file_id: id.to_string(), width, height }
}

#[test]
fn images_travel_in_base64() {
    for (bytes, encoded) in [
        (&b""[..], ""),
        (b"f", "Zg=="),
        (b"fo", "Zm8="),
        (b"foo", "Zm9v"),
        (b"foob", "Zm9vYg=="),
        (b"foobar", "Zm9vYmFy"),
        (&[0xfb, 0xff, 0xfe], "+//+"),
        (&[0, 16, 131, 16, 81, 135], "ABCDEFGH"),
    ] {
        assert_eq!(data_url("image/png", bytes), format!("data:image/png;base64,{encoded}"));
    }
    let request = vision_request(&ocr(true), "PNG", b"foo");
    assert_eq!(request.image_url, "data:image/png;base64,Zm9v");
    assert_eq!((request.model.as_str(), request.system.as_str()), ("see", OCR_PROMPT));
    assert_eq!(request.user, OCR_REQUEST);
}

#[test]
fn the_type_of_an_image_is_guessed() {
    for (ext, mime) in [
        ("png", "image/png"),
        ("WebP", "image/webp"),
        ("gif", "image/gif"),
        ("jpg", "image/jpeg"),
        ("", "image/jpeg"),
    ] {
        assert_eq!(guess_mime(ext), mime);
    }
}

#[test]
fn services_can_be_switched_off() {
    let asr = |enabled| AsrConfig {
        enabled,
        base_url: String::new(),
        api_key: String::new(),
        model: String::new(),
    };
    assert_eq!(ensure_asr_enabled(&asr(true)), Ok(()));
    assert_eq!(ensure_asr_enabled(&asr(false)), Err(ServiceDisabled::Asr));
    assert_eq!(ensure_ocr_enabled(&ocr(true)), Ok(()));
    assert_eq!(ensure_ocr_enabled(&ocr(false)), Err(ServiceDisabled::Ocr));
}

#[test]
fn replies_are_spoken_where_asked() {
    assert_eq!(spoken_text("see https://x now", true, &tts(true)), Some("see now".to_string()));
    assert_eq!(spoken_text("see", false, &tts(true)), None);
    assert_eq!(spoken_text("see", true, &tts(false)), None);
    let request = speech_request(&tts(true), "see now");
    assert_eq!(
        (request.model.as_str(), request.voice.as_str(), request.input.as_str(), request.response_format.as_str()),
        ("speak", "alloy", "see now", "mp3")
    );
    assert_eq!(voice_file_name("audio/ogg", "wav"), "reply.ogg");
    assert_eq!(voice_file_name("audio/mpeg", "mp3"), "reply.mp3");
}

#[test]
fn downloads_keep_their_extension() {
    assert_eq!(download_name("telegram", "u1", Some("oga"), Some("jpg")), "telegram-u1.oga");
    assert_eq!(download_name("telegram", "u1", None, Some("jpg")), "telegram-u1.jpg");
    assert_eq!(download_name("discord", "u2", None, None), "discord-u2.bin");
}

#[test]
fn the_debug_interface_has_a_conversation() {
    let m = debug_message("hi".to_string(), None);
    assert_eq!(
        (m.platform, m.conversation_id.as_str(), m.reply_target.as_str()),
        ("debug", "debug:local", "debug")
    );
    assert_eq!(m.text, Some("hi".to_string()));
    assert_eq!(m.kind, IncomingKind::Text);
    assert_eq!(debug_message(String::new(), Some("c".to_string())).conversation_id, "c");
    let list = vec![reply("a"), reply("b")];
    assert_eq!(reply_texts(&CoreResponse::Messages(list)), vec!["a", "b"]);
    let timer = CoreResponse::TimerStart { messages: vec![reply("c")], countdown_minutes: 3 };
    assert_eq!(reply_texts(&timer), vec!["c"]);
}

#[test]
fn slash_commands_are_answered() {
    assert!(discord::is_start_command("start") && discord::is_start_command("new"));
    assert!(!discord::is_start_command("/start") && !discord::is_start_command("stop"));
    let some = CoreResponse::Messages(vec![reply("a"), reply("b")]);
    assert_eq!(discord::command_reply(&some), Some("a".to_string()));
    let none = CoreResponse::Messages(vec![]);
    assert_eq!(discord::command_reply(&none), Some("New session started.".to_string()));
    let timer = CoreResponse::TimerStart { messages: vec![reply("a")], countdown_minutes: 1 };
    assert_eq!(discord::command_reply(&timer), None);
}

#[test]
fn attachments_are_told_apart() {
    for name in ["a.OGG", "b.mp3", "c.wav", "d.m4a", "e.aac", "f.flac", "g.webm", "mp3"] {
        assert!(discord::is_audio_attachment(name, None), "{name}");
    }
    for name in ["a.PNG", "b.jpg", "c.jpeg", "d.webp", "e.gif"] {
        assert!(discord::is_image_attachment(name, None), "{name}");
        assert!(!discord::is_audio_attachment(name, None), "{name}");
    }
    assert!(discord::is_audio_attachment("x", Some("Audio/x")));
    assert!(discord::is_image_attachment("x", Some("IMAGE/svg")));
    assert!(!discord::is_audio_attachment("x", Some("text/audio/")));
    assert!(!discord::is_image_attachment("x.txt", None));
}

#[test]
fn discord_messages_are_used_by_text_then_audio_then_image() {
    let files = vec![file("a.txt", None), file("b.png", None), file("c", Some("audio/ogg"))];
    let select = |from_bot: bool, content: &str, n: usize| {
        discord::select_input(&DiscordMessage {
            from_bot,
            content: content.to_string(),
            files: files[..n].to_vec(),
        })
    };
    assert_eq!(select(false, "hi", 3), DiscordInput::Text);
    assert_eq!(select(false, " \n", 3), DiscordInput::Audio(2));
    assert_eq!(select(false, "", 2), DiscordInput::Image(1));
    assert_eq!(select(false, "", 1), DiscordInput::Nothing);
    assert_eq!(select(true, "hi", 3), DiscordInput::Ignored);
}

#[test]
fn telegram_messages_are_used_by_text_then_voice_then_photo() {
    let voice = TelegramVoice { file_id: "v".to_string(), mime_type: None };
    let photos = vec![photo("s", 10, 10), photo("l", 20, 30), photo("m", 30, 20), photo("t", 5, 5)];
    let mut m = telegram_message();
    assert!(matches!(telegram::select_input(&m), TelegramInput::Nothing));
    m.photo = Some(vec![]);
    assert!(matches!(telegram::select_input(&m), TelegramInput::Nothing));
    m.photo = Some(photos);
    // Of two photos of the same area the later one is used.
    assert!(matches!(telegram::select_input(&m), TelegramInput::Photo { file_id } if file_id == "m"));
    m.voice = Some(voice);
    assert!(matches!(
        telegram::select_input(&m),
        TelegramInput::Voice { file_id, mime } if file_id == "v" && mime == "audio/ogg"
    ));
    m.voice = Some(TelegramVoice { file_id: "v".to_string(), mime_type: Some("audio/mpeg".to_string()) });
    assert!(matches!(telegram::select_input(&m), TelegramInput::Voice { mime, .. } if mime == "audio/mpeg"));
    m.text = Some(String::new());
    assert!(matches!(telegram::select_input(&m), TelegramInput::Text(t) if t.is_empty()));
}

#[test]
fn conversations_have_names_of_their_own() {
    assert_eq!(telegram::conversation_id(-5), "telegram:-5");
    assert_eq!(discord::conversation_id(12, 345), "discord:12:345");
    assert_ne!(discord::conversation_id(1, 23), discord::conversation_id(12, 3));
}

#[test]
fn what_is_received_is_carried_on() {
    let m = telegram::incoming_message(-5, Received::Text("hi".to_string()));
    assert_eq!(
        (m.platform, m.conversation_id.as_str(), m.reply_target.as_str()),
        ("telegram", "telegram:-5", "-5")
    );
    assert_eq!((m.text.as_deref(), m.kind), (Some("hi"), IncomingKind::Text));

    let spoken = Received::Voice { transcript: "a boat".to_string(), file: "x.wav".to_string() };
    let m = discord::incoming_message(7, 8, spoken);
    assert_eq!(
        (m.platform, m.conversation_id.as_str(), m.reply_target.as_str()),
        ("discord", "discord:7:8", "7")
    );
    assert_eq!((m.text.as_deref(), m.kind), (Some("a boat"), IncomingKind::Voice));
    assert_eq!((m.voice_file.as_deref(), m.image_file), (Some("x.wav"), None));

    let seen = Received::Image { description: "a jar".to_string(), file: "y.png".to_string() };
    let m = telegram::incoming_message(1, seen);
    assert_eq!((m.text.as_deref(), m.kind), (Some("a jar"), IncomingKind::Image));
    assert_eq!((m.voice_file, m.image_file.as_deref()), (None, Some("y.png")));

    let m = discord::incoming_message(1, 2, Received::Nothing);
    assert_eq!((m.text.as_deref(), m.kind), (Some(""), IncomingKind::Text));
}

#[test]
fn addresses_of_telegram() {
    let base = telegram::api_base("TOKEN");
    assert_eq!(base, "https://api.telegram.org/botTOKEN");
    assert_eq!(telegram::method_url(&base, "getUpdates"), "https://api.telegram.org/botTOKEN/getUpdates");
    assert_eq!(
        telegram::file_url("TOKEN", "voice/1.oga"),
        "https://api.telegram.org/file/botTOKEN/voice/1.oga"
    );
}

#[test]
fn polling_goes_on_behind_the_last_update() {
    assert_eq!(telegram::next_offset(7, &vec![]), 7);
    assert_eq!(telegram::next_offset(7, &vec![12, 9]), 10);
    assert_eq!(telegram::next_offset(0, &vec![-1]), 0);
}

#[test]
fn polling_survives_failures() {
    let (start, first) = start_polling();
    assert_eq!(first, PollAction::Poll { offset: 0 });
    let wait = |offset| PollAction::WaitAndPoll { seconds: 5, offset };
    let (p, a) = next_poll_action(start, &PollEvent::Failed);
    assert_eq!(a, wait(0));
    let (p, a) = next_poll_action(p, &PollEvent::Received(vec![]));
    assert_eq!(a, PollAction::Poll { offset: 0 });
    let (p, a) = next_poll_action(p, &PollEvent::Received(vec![7, 9]));
    assert_eq!(p, Polling { offset: 10, received: 2, handled: 0 });
    assert_eq!(a, PollAction::Handle { index: 0 });
    let (p, a) = next_poll_action(p, &PollEvent::Handled { well: false });
    assert_eq!(a, PollAction::Handle { index: 1 });
    let (p, a) = next_poll_action(p, &PollEvent::Handled { well: true });
    assert_eq!(a, PollAction::Poll { offset: 10 });
    let (p, a) = next_poll_action(p, &PollEvent::Failed);
    assert_eq!(a, wait(10));
    assert_eq!(p.offset, 10);
}
