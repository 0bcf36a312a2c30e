use ten_minute_art::clock::{Duration, Instant};
use ten_minute_art::replies::{
    beginning_text, confirm_prompt, extract_first_image_url, format_duration, opening_text,
    stop_time_prompt, stop_unknown_text, strip_timer_suffix, time_selection_prompt, timer_tick,
    with_session_time_suffix, yes_or_no_prompt, SearchModes, TimerTick,
};
use ten_minute_art::types::{artwork_from_row, Artwork, SessionStage, UserSession};

fn artwork(description: &str) -> Artwork {
    artwork_from_row(1, None, "Moon jar".to_string(), description.to_string(), 1, None, None)
}

fn at(seconds: u64) -> Instant {
    Instant { nanos: seconds * 1_000_000_000 }
}

fn session(stage: SessionStage) -> UserSession {
    UserSession {
        stage,
        history: Vec::new(),
        started_at: at(100),
        countdown_minutes: 10,
        timer_cancel: 0,
        rejected_artwork_ids: Vec::new(),
    }
}

#[test]
fn durations_have_two_digits_of_seconds() {
    for (secs, expected) in [
        (0, "0:00"),
        (9, "0:09"),
        (60, "1:00"),
        (605, "10:05"),
        (6000, "100:00"),
        (u64::MAX, "307445734561825860:15"),
    ] {
        assert_eq!(format_duration(Duration { secs, nanos: 999_999_999 }), expected);
    }
}

#[test]
fn replies_have_a_time_note_while_discussing() {
    let s = session(SessionStage::DiscussingArtwork { artwork: artwork("") });
    assert_eq!(with_session_time_suffix(Some(&s), "Hi", 5, at(105)), "Hi\n\n_[0:05 / 5:00]_");
    assert_eq!(with_session_time_suffix(Some(&s), "Hi", 5, at(399)), "Hi\n\n_[4:59 / 5:00]_");
    assert_eq!(with_session_time_suffix(Some(&s), "Hi", 5, at(400)), "Hi\n\n_[5:00 — done!]_");
    assert_eq!(with_session_time_suffix(Some(&s), "Hi", 0, at(100)), "Hi\n\n_[0:00 — done!]_");
    // A clock that seems to run backwards counts as no time.
    assert_eq!(with_session_time_suffix(Some(&s), "Hi", 5, at(1)), "Hi\n\n_[0:00 / 5:00]_");
}

#[test]
fn other_replies_have_none() {
    assert_eq!(with_session_time_suffix(None, "Hi", u64::MAX, at(1)), "Hi");
    for stage in [
        SessionStage::WaitingForArtwork,
        SessionStage::AwaitingConfirmation { artwork: artwork("") },
        SessionStage::AwaitingTimeSelection { artwork: artwork("") },
    ] {
        assert_eq!(with_session_time_suffix(Some(&session(stage)), "Hi", u64::MAX, at(1)), "Hi");
    }
}

#[test]
fn stripping_undoes_the_note() {
    let s = session(SessionStage::DiscussingArtwork { artwork: artwork("") });
    for body in ["", "Hi", "a\n\n_[b]_", "\n\n_[", "]_", "x\n\n", "é\n"] {
        for now in [100, 161, 100_000] {
            let noted = with_session_time_suffix(Some(&s), body, 10, at(now));
            assert_eq!(strip_timer_suffix(&noted), body);
        }
    }
    assert_eq!(strip_timer_suffix("no note"), "no note");
    assert_eq!(strip_timer_suffix("a\n\n_[open"), "a\n\n_[open");
    assert_eq!(strip_timer_suffix("a\n\n_[x]_ more"), "a\n\n_[x]_ more");
    assert_eq!(strip_timer_suffix("a\n\n_[]_"), "a");
    assert_eq!(strip_timer_suffix(""), "");
}

#[test]
fn a_live_timer_updates_until_the_time_is_up() {
    let base = "Look!\n\n_[0:00 / 1:00]_";
    match timer_tick(base, false, at(100), at(105), 1) {
        TimerTick::Update(t) => assert_eq!(t, "Look!\n\n_[0:05 / 1:00]_"),
        _ => panic!(),
    }
    match timer_tick(base, false, at(100), at(160), 1) {
        TimerTick::Finish(t) => assert_eq!(t, "Look!\n\n_[1:00 — done!]_"),
        _ => panic!(),
    }
    assert!(matches!(timer_tick(base, true, at(100), at(160), 1), TimerTick::Stop));
}

#[test]
fn the_first_image_link_is_found() {
    let find = extract_first_image_url;
    assert_eq!(
        find("See (https://a.b/c.JPG), then http://d.e/f.png"),
        Some("https://a.b/c.JPG".to_string())
    );
    assert_eq!(find("https://a.b/page HTTPS://x/IIIF/7"), Some("HTTPS://x/IIIF/7".to_string()));
    assert_eq!(
        find("\"http://images.metmuseum.org/x\"."),
        Some("http://images.metmuseum.org/x".to_string())
    );
    for url in ["http://a/b.jpeg", "http://a/b.webp", "http://a/b.png"] {
        assert_eq!(find(url), Some(url.to_string()));
    }
    assert_eq!(find("ftp://a/b.jpg a.jpg https://a/b.gif"), None);
    assert_eq!(find("''..((["), None);
    assert_eq!(find(""), None);
}

#[test]
fn prompts_are_worded() {
    assert_eq!(
        time_selection_prompt(&artwork("round")),
        "Got it — looks like you're looking at \"Moon jar\".\n\nHow long would you like to discuss it? Reply with a number of minutes (e.g. 1, 3, 5, or 10)."
    );
    assert_eq!(
        time_selection_prompt(&artwork("[https://a/b.png]")),
        "Got it — looks like you're looking at \"Moon jar\".\n\nHow long would you like to discuss it? Reply with a number of minutes (e.g. 1, 3, 5, or 10).\n\nImage: https://a/b.png"
    );
    assert_eq!(
        stop_time_prompt(102, "Moon jar"),
        "Got it — audio stop 102 is \"Moon jar\". \n\nHow long would you like to discuss it? Reply with a number of minutes (e.g. 1, 3, 5, or 10)."
    );
    assert_eq!(
        stop_unknown_text(-3),
        "I couldn’t find audio guide number -3 in my database. Please try another number or send the artwork name."
    );
    assert_eq!(
        confirm_prompt(false, "Moon jar"),
        "I think you probably mean \"Moon jar\". Is that the one? Reply yes or no."
    );
    assert_eq!(
        confirm_prompt(true, "Moon jar"),
        "I think you may actually mean \"Moon jar\". Is that the one? Reply yes or no."
    );
    assert_eq!(yes_or_no_prompt("Moon jar"), "Just answer yes or no — do you mean \"Moon jar\"?");
    assert_eq!(
        beginning_text(1, "Moon jar"),
        "Great — 1 minute with \"Moon jar\". Let's begin! What's the first thing that catches your eye?"
    );
    assert_eq!(
        beginning_text(12, "Moon jar"),
        "Great — 12 minutes with \"Moon jar\". Let's begin! What's the first thing that catches your eye?"
    );
}

#[test]
fn the_opening_hints_at_the_search() {
    let opening = |image, audio_id| opening_text(SearchModes { image, audio_id });
    let start = "Hello! I'm your museum companion. Give me a brief description of the artwork in front of you — the title, what it looks like, or anything from the label — and I'll try to identify it. Then we can have an in-depth discussion about it.";
    let end = "\n\nRemember: just send a message any time you want me to respond.";
    let describe = " Describe what you see, or read the title from the label.";
    let audio = " You can say the audio guide number, or read the title from the label.";
    assert_eq!(opening(true, false), format!("{start}{describe}{end}"));
    assert_eq!(opening(false, true), format!("{start}{audio}{end}"));
    assert_eq!(opening(true, true), format!("{start}{audio}{end}"));
    assert_eq!(opening(false, false), format!("{start}{end}"));
}
