use ten_minute_art::config::{
    AsrConfig, AudioGuideConfig, Config, DatabaseConfig, DiscordConfig, EmbeddingConfig,
    OcrConfig, ProviderConfig, SessionConfig, TelegramConfig, TtsConfig,
};
use ten_minute_art::config::{ensure_supported_channels, NoChannelEnabled};
use ten_minute_art::json::{
    extract_chat_content, extract_json_object, has_braces_in_order, parse_answer, read_answer,
    read_reply, Json, JsonNumber, ObjectError, ReplyError,
};
use ten_minute_art::llm::{
    classifier_request, companion_request, detected_stop, detector_request,
    discussion_intent, extract_audio_stop_number, read_detected_stop, read_intent,
    read_resolution, read_transcript, resolve_candidates, resolver_request, transcribed_text,
    StopLookup, TranscriptError, COMPANION_PROMPT, DETECTOR_PROMPT, RESOLVER_PROMPT,
};
use ten_minute_art::replies::SearchModes;
use ten_minute_art::score::Score;
use ten_minute_art::search::{
    after_embedding, after_words, begin_search, embedding_vector, read_embedding, EmbeddingError,
    SearchStep,
};
use ten_minute_art::types::{artwork_from_row, Artwork, ArtworkDecision, ChatMessage, DiscussionIntent};

fn score(v: f64) -> Score {
    Score { bits: v.to_bits() }
}

fn number(v: f64) -> Json {
    let integer = if v.fract() == 0.0 { Some(v as i64) } else { None };
    Json::Number(JsonNumber { integer, float: Some(score(v)) })
}

fn text(s: &str) -> Json {
    Json::Text(s.to_string())
}

fn object(fields: Vec<(&str, Json)>) -> Json {
    Json::Object(fields.into_iter().map(|(k, v)| (k.to_string(), v)).collect())
}

/// The body of a reply whose content is `content`, with its quotes escaped.
fn body(content: &str) -> String {
    let escaped = content.replace('\\', "\\\\").replace('"', "\\\"").replace('\n', "\\n");
    format!("{{\"choices\":[{{\"message\":{{\"content\":\"{escaped}\"}}}}]}}")
}

fn test_config_with_audio(enabled: bool) -> Config {
    Config {
        telegram: TelegramConfig {
            enabled: true,
            bot_token: "test-token".to_string(),
            poll_timeout_seconds: 30,
            download_dir: "downloads".to_string(),
        },
        discord: DiscordConfig {
            enabled: false,
            bot_token: "discord-token".to_string(),
        },
        database: DatabaseConfig {
            artworks_db_path: "artworks.db".to_string(),
        },
        session: SessionConfig {
            countdown_minutes: 10,
            max_history_messages: 24,
            auto_accept_confidence: score(0.86),
            confirm_confidence: score(0.62),
            min_top_gap: score(0.12),
        },
        audio_guide: AudioGuideConfig {
            enabled,
            museum: "met".to_string(),
        },
        llm: ProviderConfig {
            base_url: "http://localhost/chat".to_string(),
            api_key: "x".to_string(),
            model: "test".to_string(),
        },
        embedding: EmbeddingConfig {
            base_url: "http://localhost/embed".to_string(),
            api_key: "x".to_string(),
            model: "test".to_string(),
            dimensions: 768,
            min_match_score: score(0.80),
        },
        asr: AsrConfig {
            enabled: false,
            base_url: "http://localhost/asr".to_string(),
            api_key: "x".to_string(),
            model: "test".to_string(),
        },
        ocr: OcrConfig {
            enabled: false,
            base_url: "http://localhost/ocr".to_string(),
            api_key: "x".to_string(),
            model: "test".to_string(),
        },
        tts: TtsConfig {
            enabled: false,
            base_url: "http://localhost/tts".to_string(),
            api_key: "x".to_string(),
            model: "test".to_string(),
            voice: "alloy".to_string(),
            format: "mp3".to_string(),
        },
    }
}

fn artwork(id: i64, name: &str, description: &str) -> Artwork {
    artwork_from_row(id, None, name.to_string(), description.to_string(), 1, None, None)
}

fn message(role: &str, content: &str) -> ChatMessage {
    ChatMessage { role: role.to_string(), content: content.to_string() }
}

#[test]
fn audio_stop_number_extraction_handles_disabled_config_without_network() {
    let disabled = test_config_with_audio(false);
    assert!(matches!(extract_audio_stop_number(&disabled, "102"), StopLookup::Known(None)));
    assert!(matches!(extract_audio_stop_number(&disabled, "stop 205"), StopLookup::Known(None)));
    assert!(matches!(extract_audio_stop_number(&disabled, "audio 17"), StopLookup::Known(None)));
}

#[test]
fn audio_stop_number_extraction_asks_the_detector_when_enabled() {
    match extract_audio_stop_number(&test_config_with_audio(true), "stop 205") {
        StopLookup::Ask(request) => {
            assert_eq!(request.model, "test");
            assert_eq!(request.system, DETECTOR_PROMPT);
            assert_eq!(request.user, "stop 205");
            assert_eq!(request.temperature_tenths, 0);
        }
        StopLookup::Known(_) => panic!(),
    }
}

#[test]
fn one_channel_is_enough() {
    let mut config = test_config_with_audio(false);
    assert_eq!(ensure_supported_channels(&config), Ok(()));
    config.telegram.enabled = false;
    assert_eq!(ensure_supported_channels(&config), Err(NoChannelEnabled));
    config.discord.enabled = true;
    assert_eq!(ensure_supported_channels(&config), Ok(()));
}

#[test]
fn rows_without_the_new_columns_are_read() {
    let old = artwork_from_row(7, Some(3), "A".to_string(), "B".to_string(), 2, None, None);
    assert!(!old.is_highlight && old.gallery_number.is_empty());
    assert_eq!((old.id, old.audio_guide_id, old.description_level), (7, Some(3), 2));
    let new = artwork_from_row(7, None, "A".to_string(), "B".to_string(), 2, Some(1), Some("9".to_string()));
    assert!(new.is_highlight && new.gallery_number == "9");
    assert!(!artwork_from_row(7, None, "A".to_string(), "B".to_string(), 2, Some(0), None).is_highlight);
}

#[test]
fn replies_are_read_from_their_bodies() {
    assert_eq!(read_reply(&body("Hello \"you\"")), Ok("Hello \"you\"".to_string()));
    assert_eq!(read_reply("no JSON"), Err(ReplyError::Body));
    assert_eq!(read_reply("{}"), Err(ReplyError::NoContent));
    assert_eq!(read_reply("{\"choices\":[]}"), Err(ReplyError::NoContent));
    assert_eq!(
        read_reply("{\"choices\":[{\"message\":{\"content\":null}}]}"),
        Err(ReplyError::NoContent)
    );
    assert_eq!(read_reply(&body("")), Ok(String::new()));
    assert_eq!(
        read_reply(
            "{\"choices\":[{\"message\":{\"content\":[{\"text\":\"a\"},{\"image\":1},{\"text\":\"\"},{\"text\":\"b\"}]}}]}"
        ),
        Ok("a\n\nb".to_string())
    );
    assert_eq!(
        read_reply("{\"choices\":[{\"message\":{\"content\":[{\"text\":\"\"}]}}]}"),
        Err(ReplyError::NoContent)
    );
}

#[test]
fn chat_content_is_found_in_a_value() {
    let reply = |content: Json| {
        object(vec![(
            "choices",
            Json::Array(vec![object(vec![("message", object(vec![("content", content)]))])]),
        )])
    };
    assert_eq!(extract_chat_content(&reply(text("hi"))), Some("hi".to_string()));
    assert_eq!(extract_chat_content(&reply(Json::Bool(true))), None);
    assert_eq!(extract_chat_content(&reply(Json::Array(vec![]))), None);
    assert_eq!(extract_chat_content(&Json::Null), None);
}

#[test]
fn an_object_is_cut_out_of_a_text() {
    assert_eq!(extract_json_object("say {\"a\":{}} ok"), Ok("{\"a\":{}}".to_string()));
    assert_eq!(extract_json_object("nothing }"), Err(ObjectError::NoStart));
    assert_eq!(extract_json_object("{ nothing"), Err(ObjectError::NoEnd));
    assert_eq!(extract_json_object("}{"), Ok(String::new()));
    assert!(!has_braces_in_order("} é {"));
    assert!(has_braces_in_order("}{"));
}

#[test]
fn answers_are_read_with_or_without_words_around_them() {
    assert_eq!(parse_answer("{\"action\":\"reply\"}").ok().unwrap().get_text("action"), Some("reply".to_string()));
    assert_eq!(
        parse_answer("```json\n{\"n\": 3}\n```").ok().unwrap().get_integer("n"),
        Some(3)
    );
    assert_eq!(parse_answer("plain words").err(), Some(ReplyError::Content));
    assert_eq!(parse_answer("{broken}").err(), Some(ReplyError::Content));
    assert_eq!(parse_answer("} then {").err(), Some(ReplyError::Braces));
    assert_eq!(read_answer("nope").err(), Some(ReplyError::Body));
    assert!(read_answer(&body("[1, true]")).is_ok());
}

#[test]
fn members_have_their_types() {
    let v = parse_answer("{\"b\":true,\"i\":-4,\"f\":0.5,\"t\":\"x\",\"a\":[1],\"big\":18446744073709551615}")
        .ok()
        .unwrap();
    assert_eq!(v.get_bool("b"), Some(true));
    assert_eq!(v.get_integer("i"), Some(-4));
    assert_eq!(v.get_integer("f"), None);
    assert_eq!(v.get_integer("big"), None);
    assert_eq!(v.get_score("f").map(|s| f64::from_bits(s.bits)), Some(0.5));
    assert_eq!(v.get_score("i").map(|s| f64::from_bits(s.bits)), Some(-4.0));
    assert_eq!(v.get_text("t"), Some("x".to_string()));
    assert_eq!(v.get_text("b"), None);
    assert_eq!(v.get_array("a").map(|a| a.len()), Some(1));
    assert!(v.get("missing").is_none());
    assert!(text("x").get("t").is_none());
}

#[test]
fn the_detector_needs_confidence() {
    let answer = |audio: Json, confidence: Json, n: Json| {
        object(vec![("is_audio_guide_number", audio), ("confidence", confidence), ("number", n)])
    };
    assert_eq!(detected_stop(&answer(Json::Bool(true), number(0.6), number(102.0))), Some(102));
    assert_eq!(detected_stop(&answer(Json::Bool(true), number(0.59), number(102.0))), None);
    assert_eq!(detected_stop(&answer(Json::Bool(false), number(1.0), number(102.0))), None);
    assert_eq!(detected_stop(&answer(text("true"), number(1.0), number(102.0))), None);
    assert_eq!(detected_stop(&answer(Json::Bool(true), Json::Null, number(102.0))), None);
    assert_eq!(detected_stop(&answer(Json::Bool(true), number(1.0), Json::Null)), None);
    assert_eq!(
        read_detected_stop(&body(
            "{\"is_audio_guide_number\": true, \"number\": 17, \"confidence\": 0.9}"
        )),
        Ok(Some(17))
    );
    assert_eq!(read_detected_stop("?"), Err(ReplyError::Body));
}

#[test]
fn the_resolver_chooses_among_the_candidates() {
    let candidates = vec![artwork(1, "Wave", ""), artwork(2, "Jar", "")];
    let answer = |id: f64, confidence: f64| {
        object(vec![("matched_id", number(id)), ("confidence", number(confidence)), ("reason", text("why"))])
    };
    let decide = |a: Json| resolve_candidates(&a, &candidates, score(0.86), score(0.62));
    match decide(answer(2.0, 0.86)) {
        ArtworkDecision::AutoAccept { artwork, confidence, rationale } => {
            assert_eq!(artwork.id, 2);
            assert_eq!(f64::from_bits(confidence.bits), 0.86);
            assert_eq!(rationale, "why");
        }
        _ => panic!(),
    }
    assert!(matches!(decide(answer(1.0, 0.85)), ArtworkDecision::NeedsConfirmation { artwork, .. } if artwork.id == 1));
    assert!(matches!(decide(answer(1.0, 0.61)), ArtworkDecision::NoMatch));
    assert!(matches!(decide(answer(99.0, 1.0)), ArtworkDecision::NoMatch));
    assert!(matches!(decide(Json::Null), ArtworkDecision::NoMatch));
    match read_resolution(
        &body("Sure: {\"matched_id\": 1, \"confidence\": 0.9}"),
        &candidates,
        score(0.86),
        score(0.62),
    ) {
        Ok(ArtworkDecision::AutoAccept { artwork, rationale, .. }) => {
            assert_eq!(artwork.id, 1);
            assert_eq!(rationale, "no reason provided");
        }
        _ => panic!(),
    }
}

#[test]
fn the_classifier_asks_for_a_search_only_with_a_query() {
    let search = |fields: Vec<(&str, Json)>| discussion_intent(&object(fields), " the jar ");
    match search(vec![("action", text("search_artwork")), ("query", text(" moon jar "))]) {
        DiscussionIntent::SearchArtwork { query } => assert_eq!(query, "moon jar"),
        DiscussionIntent::Reply => panic!(),
    }
    match search(vec![("action", text("search_artwork"))]) {
        DiscussionIntent::SearchArtwork { query } => assert_eq!(query, "the jar"),
        DiscussionIntent::Reply => panic!(),
    }
    assert!(matches!(
        search(vec![("action", text("search_artwork")), ("query", text(" "))]),
        DiscussionIntent::Reply
    ));
    assert!(matches!(search(vec![("action", text("reply"))]), DiscussionIntent::Reply));
    assert!(matches!(search(vec![]), DiscussionIntent::Reply));
    assert!(matches!(
        read_intent(&body("{\"action\":\"search_artwork\",\"query\":\"jar\"}"), "x"),
        Ok(DiscussionIntent::SearchArtwork { .. })
    ));
    assert_eq!(read_intent(&body("hm"), "x").err(), Some(ReplyError::Content));
}

#[test]
fn questions_hold_what_they_are_about() {
    let llm = test_config_with_audio(true).llm;
    let candidates = vec![artwork(-1, "Wave", &"é".repeat(401)), artwork(2, "Jar", "round")];
    let request = resolver_request(&llm, "a boat", &candidates);
    assert!(request.system.starts_with(RESOLVER_PROMPT));
    assert!(request.system.ends_with(&format!(
        "User text: a boat\n\nCandidates:\nID: -1 | Title: Wave | Description: {}\nID: 2 | Title: Jar | Description: round",
        "é".repeat(400)
    )));
    assert_eq!((request.user.as_str(), request.temperature_tenths), ("a boat", 0));

    let history = vec![message("assistant", "Hello"), message("user", "A boat")];
    let request = classifier_request(&llm, &candidates[0], &history, "no, a jar");
    assert!(request.system.starts_with(
        "You are a tiny classifier for a museum bot. The current selected artwork is titled: Wave. Decide"
    ));
    assert!(request.system.ends_with("Conversation history:\nassistant: Hello\nuser: A boat"));
    assert_eq!(request.user, "no, a jar");

    let request = companion_request(&llm, &candidates[1], &history);
    assert_eq!(
        request.system,
        format!("{COMPANION_PROMPT}Jar. Full artwork context: round")
    );
    assert_eq!(request.user, "assistant: Hello\nuser: A boat");
    assert_eq!((request.model.as_str(), request.temperature_tenths), ("test", 8));
    assert_eq!(detector_request(&llm, "stop 5").user, "stop 5");
}

#[test]
fn transcripts_are_read() {
    assert_eq!(read_transcript("{\"text\":\"a boat\"}"), Ok("a boat".to_string()));
    assert_eq!(read_transcript("{\"text\":5}"), Err(TranscriptError::NoText));
    assert_eq!(read_transcript("<html>"), Err(TranscriptError::Body));
    assert_eq!(transcribed_text(&object(vec![("text", text(""))])), Ok(String::new()));
}

#[test]
fn embeddings_are_read() {
    let bits = |r: Result<Vec<Score>, EmbeddingError>| {
        r.map(|v| v.into_iter().map(|s| f64::from_bits(s.bits)).collect::<Vec<f64>>())
    };
    assert_eq!(
        bits(read_embedding("{\"data\":[{\"embedding\":[1, 0.25, \"x\", -3]}]}", 4)),
        Ok(vec![1.0, 0.25, 0.0, -3.0])
    );
    assert_eq!(
        bits(read_embedding("{\"data\":[{\"embedding\":[1]}]}", 2)),
        Err(EmbeddingError::Dimensions { expected: 2, got: 1 })
    );
    assert_eq!(bits(read_embedding("{\"data\":[]}", 2)), Err(EmbeddingError::NoVector));
    assert_eq!(bits(read_embedding("{\"data\":[{}]}", 2)), Err(EmbeddingError::NoVector));
    assert_eq!(bits(read_embedding("", 2)), Err(EmbeddingError::Body));
    assert_eq!(bits(embedding_vector(&Json::Null, 0)), Err(EmbeddingError::NoVector));
}

#[test]
fn a_search_goes_from_embedding_to_words_to_the_model() {
    let config = test_config_with_audio(true);
    let image = SearchModes { image: true, audio_id: false };
    let words_only = SearchModes { image: false, audio_id: true };
    match begin_search(&config, image, "Big waves") {
        SearchStep::Embed(request) => {
            assert_eq!((request.input.as_str(), request.dimensions), ("Big waves", 768));
            assert_eq!(request.model, "test");
        }
        _ => panic!(),
    }
    assert!(matches!(begin_search(&config, image, " \n"), SearchStep::Words(q) if q.is_empty()));
    assert!(matches!(begin_search(&config, words_only, "Big waves"), SearchStep::Words(q) if q == "wave"));

    let near = |s: f64| Some((artwork(4, "Wave", ""), score(s)));
    match after_embedding(near(0.8), "close".to_string(), score(0.8), "Big waves") {
        SearchStep::Done(ArtworkDecision::AutoAccept { artwork, confidence, rationale }) => {
            assert_eq!(artwork.id, 4);
            assert_eq!(f64::from_bits(confidence.bits), 0.8);
            assert_eq!(rationale, "close");
        }
        _ => panic!(),
    }
    assert!(matches!(
        after_embedding(near(0.79), "far".to_string(), score(0.8), "Big waves"),
        SearchStep::Words(q) if q == "wave"
    ));
    assert!(matches!(
        after_embedding(None, String::new(), score(0.8), "Big waves"),
        SearchStep::Words(_)
    ));

    assert!(matches!(
        after_words(vec![], &config.llm, "x"),
        SearchStep::Done(ArtworkDecision::NoMatch)
    ));
    match after_words(vec![artwork(1, "A", "")], &config.llm, "x") {
        SearchStep::Done(ArtworkDecision::AutoAccept { artwork, confidence, rationale }) => {
            assert_eq!((artwork.id, rationale.as_str()), (1, "single FTS candidate"));
            assert_eq!(f64::from_bits(confidence.bits), 1.0);
        }
        _ => panic!(),
    }
    match after_words(vec![artwork(1, "A", ""), artwork(2, "B", "")], &config.llm, "x") {
        SearchStep::Resolve { candidates, request } => {
            assert_eq!(candidates.len(), 2);
            assert!(request.system.contains("ID: 2 | Title: B"));
        }
        _ => panic!(),
    }
}
