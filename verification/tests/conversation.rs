use ten_minute_art::clock::Instant;
use ten_minute_art::config::{
    AsrConfig, AudioGuideConfig, Config, DatabaseConfig, DiscordConfig, EmbeddingConfig,
    OcrConfig, ProviderConfig, SessionConfig, TelegramConfig, TtsConfig,
};
use ten_minute_art::replies::{MAYBE_WRONG, NOT_IDENTIFIED, TRY_AGAIN};
use ten_minute_art::score::Score;
use ten_minute_art::session::{
    find_artwork_of_stop, handle_artwork_decision, handle_audio_stop_lookup_by_db,
    handle_confirmation, handle_detected_stop, handle_discussion_intent, handle_generated_reply,
    handle_text_message, is_cancelled, start_session, timer_of, truncate_history, CoreResponse,
    CoreState, Step,
};
use ten_minute_art::types::{
    artwork_from_row, Artwork, ArtworkDecision, ChatMessage, DiscussionIntent, IncomingKind,
    IncomingMessage, SessionStage, UserSession,
};

fn score(v: f64) -> Score {
    Score { bits: v.to_bits() }
}

fn config(max_history_messages: usize) -> Config {
    let s = |t: &str| t.to_string();
    Config {
        telegram: TelegramConfig {
            enabled: true,
            bot_token: s("t"),
            poll_timeout_seconds: 30,
            download_dir: s("downloads"),
        },
        discord: DiscordConfig { enabled: false, bot_token: s("d") },
        database: DatabaseConfig { artworks_db_path: s("artworks.db") },
        session: SessionConfig {
            countdown_minutes: 10,
            max_history_messages,
            auto_accept_confidence: score(0.86),
            confirm_confidence: score(0.62),
            min_top_gap: score(0.12),
        },
        audio_guide: AudioGuideConfig { enabled: true, museum: s("met") },
        llm: ProviderConfig { base_url: s("http://l"), api_key: s("x"), model: s("m") },
        embedding: EmbeddingConfig {
            base_url: s("http://e"),
            api_key: s("x"),
            model: s("m"),
            dimensions: 768,
            min_match_score: score(0.8),
        },
        asr: AsrConfig { enabled: false, base_url: s(""), api_key: s(""), model: s("") },
        ocr: OcrConfig { enabled: false, base_url: s(""), api_key: s(""), model: s("") },
        tts: TtsConfig {
            enabled: false,
            base_url: s(""),
            api_key: s(""),
            model: s(""),
            voice: s("alloy"),
            format: s("mp3"),
        },
    }
}

fn artwork(id: i64, stop: Option<i64>, name: &str) -> Artwork {
    artwork_from_row(id, stop, name.to_string(), "About it".to_string(), 1, None, None)
}

fn state() -> CoreState {
    CoreState::new(config(24), vec![artwork(1, Some(102), "Nataraja"), artwork(2, None, "Moon jar")])
}

fn at(seconds: u64) -> Instant {
    Instant { nanos: seconds * 1_000_000_000 }
}

fn message(id: &str, text: &str) -> IncomingMessage {
    IncomingMessage {
        platform: "debug",
        conversation_id: id.to_string(),
        reply_target: "debug".to_string(),
        text: Some(text.to_string()),
        voice_file: None,
        image_file: None,
        kind: IncomingKind::Text,
    }
}

fn say(state: &mut CoreState, id: &str, text: &str, seconds: u64) -> Step {
    handle_text_message(state, &message(id, text), at(seconds))
}

fn accept(id: i64, name: &str) -> ArtworkDecision {
    ArtworkDecision::AutoAccept {
        artwork: artwork(id, None, name),
        confidence: score(1.0),
        rationale: String::new(),
    }
}

fn only_text(step: Step) -> String {
    match step {
        Step::Respond(CoreResponse::Messages(list)) => {
            assert_eq!(list.len(), 1);
            assert!(list[0].with_tts);
            list[0].text.clone()
        }
        _ => panic!("expected plain messages"),
    }
}

fn timed_text(step: Step) -> (String, u64) {
    match step {
        Step::Respond(CoreResponse::TimerStart { messages, countdown_minutes }) => {
            assert_eq!(messages.len(), 1);
            assert!(messages[0].with_tts);
            (messages[0].text.clone(), countdown_minutes)
        }
        _ => panic!("expected a timer"),
    }
}

fn history(state: &CoreState, id: &str) -> Vec<(String, String)> {
    let session = state.sessions.get(id).unwrap();
    session.history.iter().map(|m| (m.role.clone(), m.content.clone())).collect()
}

fn stage(state: &CoreState, id: &str) -> &'static str {
    match state.sessions.get(id).unwrap().stage {
        SessionStage::WaitingForArtwork => "waiting",
        SessionStage::AwaitingConfirmation { .. } => "confirm",
        SessionStage::AwaitingTimeSelection { .. } => "time",
        SessionStage::DiscussingArtwork { .. } => "discuss",
    }
}

/// A conversation that discusses the moon jar for three minutes from second 100 on.
fn discussing() -> CoreState {
    let mut st = state();
    say(&mut st, "a", "a jar", 98);
    handle_artwork_decision(&mut st, "a", false, accept(2, "Moon jar"), at(99));
    say(&mut st, "a", "3", 100);
    assert_eq!(stage(&st, "a"), "discuss");
    st
}

#[test]
fn start_and_new_give_a_fresh_session() {
    for (command, word) in [("/start", "Hello!"), (" /new\n", "Hello!")] {
        let mut st = discussing();
        let step = say(&mut st, "a", command, 500);
        match step {
            Step::Respond(CoreResponse::Messages(list)) => {
                assert!(list[0].text.starts_with(word));
                assert!(!list[0].with_tts);
                assert_eq!(history(&st, "a"), vec![("assistant".to_string(), list[0].text.clone())]);
            }
            _ => panic!(),
        }
        assert_eq!(stage(&st, "a"), "waiting");
        let session = st.sessions.get("a").unwrap();
        assert_eq!(session.countdown_minutes, 10);
        assert_eq!(session.started_at, at(500));
        assert!(session.rejected_artwork_ids.is_empty());
    }
    // Other words with a slash are said, not obeyed.
    let mut st = state();
    assert!(matches!(say(&mut st, "a", "/start now", 1), Step::DetectStop { .. }));
}

#[test]
fn starting_over_leaves_the_old_timer_running() {
    let mut st = discussing();
    let timer = timer_of(&st, "a", at(100));
    assert!(!is_cancelled(&st, &timer));
    start_session(&mut st, "a", at(110));
    assert!(!is_cancelled(&st, &timer));
    assert_ne!(timer_of(&st, "a", at(111)).id, timer.id);
}

#[test]
fn the_first_message_of_an_unknown_visitor_opens_a_conversation() {
    let mut st = state();
    match say(&mut st, "a", "a jar", 7) {
        Step::DetectStop { query, again } => assert_eq!((query.as_str(), again), ("a jar", false)),
        _ => panic!(),
    }
    assert_eq!(history(&st, "a"), vec![("user".to_string(), "a jar".to_string())]);
    match handle_detected_stop(&mut st, "a", "a jar".to_string(), false, None, at(8)) {
        Step::FindArtwork { query, again } => assert_eq!((query.as_str(), again), ("a jar", false)),
        _ => panic!(),
    }
    // A message without a text counts as an empty one.
    let mut silent = message("b", "");
    silent.text = None;
    assert!(matches!(
        handle_text_message(&mut st, &silent, at(9)),
        Step::DetectStop { query, .. } if query.is_empty()
    ));
}

#[test]
fn a_stop_leads_to_its_artwork() {
    let mut st = state();
    say(&mut st, "a", "stop 102", 1);
    let step = handle_detected_stop(&mut st, "a", "stop 102".to_string(), false, Some(102), at(2));
    let reply = only_text(step);
    assert!(reply.starts_with("Got it — audio stop 102 is \"Nataraja\". \n\nHow long"));
    assert_eq!(stage(&st, "a"), "time");
    assert_eq!(history(&st, "a")[1], ("assistant".to_string(), reply));
    assert_eq!(find_artwork_of_stop(&st.artworks, 102).map(|a| a.id), Some(1));
}

#[test]
fn an_unknown_stop_changes_nothing() {
    let mut st = state();
    say(&mut st, "a", "stop 7", 1);
    let reply = only_text(handle_audio_stop_lookup_by_db(&mut st, "a", 7, at(2)));
    assert!(reply.starts_with("I couldn’t find audio guide number 7 in my database."));
    assert_eq!(stage(&st, "a"), "waiting");
    assert_eq!(history(&st, "a").len(), 1);
    assert!(find_artwork_of_stop(&st.artworks, 7).is_none());
    // During a discussion the note counts by the configured ten minutes.
    let mut st = discussing();
    let reply = only_text(handle_audio_stop_lookup_by_db(&mut st, "a", 7, at(105)));
    assert!(reply.ends_with("\n\n_[0:05 / 10:00]_"));
    assert_eq!(stage(&st, "a"), "discuss");
}

#[test]
fn a_search_is_accepted_confirmed_or_failed() {
    let mut st = state();
    say(&mut st, "a", "a jar", 1);
    let reply = only_text(handle_artwork_decision(&mut st, "a", false, accept(2, "Moon jar"), at(2)));
    assert!(reply.starts_with("Got it — looks like you're looking at \"Moon jar\"."));
    assert_eq!(stage(&st, "a"), "time");

    let mut st = state();
    say(&mut st, "a", "a jar", 1);
    let unsure = ArtworkDecision::NeedsConfirmation {
        artwork: artwork(2, None, "Moon jar"),
        confidence: score(0.7),
        rationale: String::new(),
    };
    let reply = only_text(handle_artwork_decision(&mut st, "a", false, unsure, at(2)));
    assert_eq!(reply, "I think you probably mean \"Moon jar\". Is that the one? Reply yes or no.");
    assert_eq!(stage(&st, "a"), "confirm");

    let mut st = state();
    say(&mut st, "a", "a jar", 1);
    let reply = only_text(handle_artwork_decision(&mut st, "a", false, ArtworkDecision::NoMatch, at(2)));
    assert_eq!(reply, NOT_IDENTIFIED);
    assert_eq!(history(&st, "a").len(), 1);
}

#[test]
fn a_confirmation_is_answered() {
    let confirm = || {
        let mut st = state();
        say(&mut st, "a", "a jar", 1);
        let unsure = ArtworkDecision::NeedsConfirmation {
            artwork: artwork(2, None, "Moon jar"),
            confidence: score(0.7),
            rationale: String::new(),
        };
        handle_artwork_decision(&mut st, "a", false, unsure, at(2));
        st
    };
    let mut st = confirm();
    let reply = only_text(say(&mut st, "a", "Yes!", 3));
    assert!(reply.starts_with("Got it — looks like you're looking at \"Moon jar\"."));
    assert_eq!(stage(&st, "a"), "time");
    assert_eq!(history(&st, "a").len(), 4);

    let mut st = confirm();
    assert_eq!(only_text(say(&mut st, "a", "nope", 3)), TRY_AGAIN);
    assert_eq!(stage(&st, "a"), "waiting");
    assert_eq!(history(&st, "a").len(), 4);

    let mut st = confirm();
    assert_eq!(
        only_text(say(&mut st, "a", "perhaps", 3)),
        "Just answer yes or no — do you mean \"Moon jar\"?"
    );
    assert_eq!(stage(&st, "a"), "confirm");
    assert_eq!(history(&st, "a").len(), 3);

    let mut st = confirm();
    let step = handle_confirmation(&mut st, "a", artwork(2, None, "Moon jar"), "yes", at(3));
    assert!(only_text(step).starts_with("Got it"));
}

#[test]
fn minutes_are_clamped() {
    for (said, minutes) in [("0", 1), ("1", 1), (" 60 ", 60), ("61", 60), ("+7", 7)] {
        let mut st = state();
        say(&mut st, "a", "a jar", 1);
        handle_artwork_decision(&mut st, "a", false, accept(2, "Moon jar"), at(2));
        let (reply, countdown) = timed_text(say(&mut st, "a", said, 3));
        assert_eq!(countdown, minutes);
        let plural = if minutes == 1 { "" } else { "s" };
        assert_eq!(
            reply,
            format!(
                "Great — {minutes} minute{plural} with \"Moon jar\". Let's begin! What's the first thing that catches your eye?\n\n_[0:00 / {minutes}:00]_"
            )
        );
        let session = st.sessions.get("a").unwrap();
        assert_eq!((session.countdown_minutes, session.started_at), (minutes, at(3)));
        assert!(!is_cancelled(&st, &timer_of(&st, "a", at(4))));
    }
}

#[test]
fn other_words_start_a_discussion_of_five_minutes() {
    let mut st = state();
    say(&mut st, "a", "a jar", 1);
    handle_artwork_decision(&mut st, "a", false, accept(2, "Moon jar"), at(2));
    let before = timer_of(&st, "a", at(2));
    match say(&mut st, "a", "it is so round", 3) {
        Step::GenerateReply { first, request } => {
            assert!(first);
            assert!(request.system.contains("Artwork title: Moon jar. Full artwork context: About it"));
            assert!(request.user.ends_with("user: it is so round"));
        }
        _ => panic!(),
    }
    assert_eq!(stage(&st, "a"), "discuss");
    let timer = timer_of(&st, "a", at(4));
    assert!(is_cancelled(&st, &before));
    let step = handle_generated_reply(&mut st, "a", true, "Indeed.".to_string(), at(5));
    assert_eq!(timed_text(step), ("Indeed.\n\n_[0:02 / 5:00]_".to_string(), 5));
    assert_eq!(timer_of(&st, "a", at(6)).id, timer.id);
    assert!(!is_cancelled(&st, &timer));
}

#[test]
fn a_discussion_goes_on() {
    let mut st = discussing();
    let (art, text) = match say(&mut st, "a", "why white?", 110) {
        Step::ClassifyIntent { artwork, text, request } => {
            assert!(request.system.ends_with("user: why white?"));
            assert_eq!(request.user, "why white?");
            (artwork, text)
        }
        _ => panic!(),
    };
    assert_eq!((art.id, text.as_str()), (2, "why white?"));
    match handle_discussion_intent(&st, "a", &art, DiscussionIntent::Reply) {
        Step::GenerateReply { first, request } => {
            assert!(!first);
            assert!(request.user.ends_with("user: why white?"));
        }
        _ => panic!(),
    }
    let old = timer_of(&st, "a", at(111));
    let step = handle_generated_reply(&mut st, "a", false, "Porcelain.".to_string(), at(112));
    assert_eq!(timed_text(step), ("Porcelain.\n\n_[0:12 / 3:00]_".to_string(), 3));
    assert!(is_cancelled(&st, &old));
    let new = timer_of(&st, "a", at(113));
    assert!(!is_cancelled(&st, &new));
    assert_eq!(new.start, at(100));
    let step = handle_generated_reply(&mut st, "a", false, "Late.".to_string(), at(280));
    assert_eq!(timed_text(step).0, "Late.\n\n_[3:00 — done!]_");
}

#[test]
fn a_wrong_artwork_is_searched_again() {
    let mut st = discussing();
    let art = artwork(2, None, "Moon jar");
    let intent = DiscussionIntent::SearchArtwork { query: "dancer".to_string() };
    match handle_discussion_intent(&st, "a", &art, intent) {
        Step::DetectStop { query, again } => assert_eq!((query.as_str(), again), ("dancer", true)),
        _ => panic!(),
    }
    let step = handle_artwork_decision(&mut st, "a", true, ArtworkDecision::NoMatch, at(120));
    let (reply, minutes) = timed_text(step);
    assert_eq!(reply, format!("{MAYBE_WRONG}\n\n_[0:20 / 3:00]_"));
    assert_eq!(minutes, 3);
    assert_eq!(stage(&st, "a"), "discuss");

    let unsure = ArtworkDecision::NeedsConfirmation {
        artwork: artwork(1, None, "Nataraja"),
        confidence: score(0.7),
        rationale: String::new(),
    };
    let reply = only_text(handle_artwork_decision(&mut st, "a", true, unsure, at(121)));
    assert_eq!(reply, "I think you may actually mean \"Nataraja\". Is that the one? Reply yes or no.");
    assert_eq!(stage(&st, "a"), "confirm");
}

#[test]
fn conversations_do_not_touch_each_other() {
    let mut st = discussing();
    let before = history(&st, "a");
    let timer = timer_of(&st, "a", at(1));
    say(&mut st, "b", "/start", 200);
    say(&mut st, "b", "a dancer", 201);
    handle_artwork_decision(&mut st, "b", false, accept(1, "Nataraja"), at(202));
    say(&mut st, "b", "2", 203);
    handle_generated_reply(&mut st, "b", false, "Fire.".to_string(), at(204));
    assert_eq!(history(&st, "a"), before);
    assert_eq!(stage(&st, "a"), "discuss");
    assert!(!is_cancelled(&st, &timer));
}

#[test]
fn histories_are_bounded() {
    let mut st = CoreState::new(config(3), vec![]);
    for i in 0..10 {
        say(&mut st, "a", &format!("try {i}"), i);
        handle_artwork_decision(&mut st, "a", true, ArtworkDecision::NoMatch, at(i));
    }
    let kept = history(&st, "a");
    assert_eq!(kept.len(), 3);
    assert_eq!(kept[1].1, "try 9");
    // Nothing is kept at all, but for the welcome and one reply.
    let mut st = CoreState::new(config(0), vec![]);
    say(&mut st, "a", "hello", 1);
    assert!(history(&st, "a").is_empty());
    say(&mut st, "a", "/new", 1);
    assert_eq!(history(&st, "a").len(), 1);
}

#[test]
fn the_oldest_messages_go_first() {
    let mut session = UserSession {
        stage: SessionStage::WaitingForArtwork,
        history: (0..5)
            .map(|i| ChatMessage { role: "user".to_string(), content: i.to_string() })
            .collect(),
        started_at: at(0),
        countdown_minutes: 10,
        timer_cancel: 0,
        rejected_artwork_ids: vec![4],
    };
    truncate_history(&mut session, 9);
    assert_eq!(session.history.len(), 5);
    truncate_history(&mut session, 2);
    let left: Vec<&str> = session.history.iter().map(|m| m.content.as_str()).collect();
    assert_eq!(left, vec!["3", "4"]);
    assert_eq!(session.clone().rejected_artwork_ids, vec![4]);
    truncate_history(&mut session, 0);
    assert!(session.history.is_empty());
}

#[test]
fn steps_for_a_missing_conversation_only_answer() {
    let mut st = state();
    assert!(only_text(handle_artwork_decision(&mut st, "x", false, accept(1, "N"), at(1))).starts_with("Got it"));
    assert_eq!(only_text(handle_generated_reply(&mut st, "x", false, "Hm".to_string(), at(1))), "Hm");
    assert_eq!(timed_text(handle_generated_reply(&mut st, "x", true, "Hm".to_string(), at(1))), ("Hm".to_string(), 5));
    let step = handle_confirmation(&mut st, "x", artwork(1, None, "N"), "no", at(1));
    assert_eq!(only_text(step), TRY_AGAIN);
    assert!(st.sessions.get("x").is_none());
    let timer = timer_of(&st, "x", at(9));
    assert!(timer.id.is_none() && timer.start == at(9) && is_cancelled(&st, &timer));
}
