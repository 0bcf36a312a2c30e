use ten_minute_art::matching::{
    artwork_audio_stop_score, build_fts_query, do_titles_meet, find_artwork_for_audio_stop,
    fts_query_of, is_affirmative, is_negative, is_no, is_yes, normalize_text, plain_words,
    score_titles, singularize_term,
};
use ten_minute_art::types::Artwork;

fn artwork(id: i64, official_name: &str) -> Artwork {
    Artwork {
        id,
        audio_guide_id: None,
        official_name: official_name.to_string(),
        description: "Test description".to_string(),
        description_level: 3,
        is_highlight: false,
        gallery_number: String::new(),
    }
}

#[test]
fn normalize_text_strips_punctuation_and_case() {
    assert_eq!(normalize_text("Moo Lisa!!"), "moo lisa");
    assert_eq!(normalize_text("  Audio Stop: 102 "), "audio stop 102");
    assert_eq!(
        normalize_text("Shiva-as-Lord_of_Dance"),
        "shiva as lord of dance"
    );
}

#[test]
fn affirmative_and_negative_detection_work() {
    assert!(is_affirmative("yes"));
    assert!(is_affirmative("That is right"));
    assert!(is_negative("no"));
    assert!(is_negative("not that one"));
    assert!(!is_affirmative("maybe"));
    assert!(!is_negative("correct"));
}

#[test]
fn audio_stop_matching_prefers_best_local_artwork() {
    let artworks = vec![
        artwork(1, "Shiva as Lord of Dance (Nataraja)"),
        artwork(2, "Moon jar"),
    ];

    let matched = find_artwork_for_audio_stop(&artworks, "Nataraja").expect("expected a match");
    assert_eq!(matched.id, 1);
    assert_eq!(matched.official_name, "Shiva as Lord of Dance (Nataraja)");
    assert!(f64::from_bits(artwork_audio_stop_score("nataraja", &matched).bits) >= 0.72);
}

#[test]
fn audio_stop_matching_returns_none_when_unrelated() {
    let artworks = vec![artwork(2, "Moon jar")];

    assert!(
        find_artwork_for_audio_stop(&artworks, "Models from the Tomb of Meketre, Part 1")
            .is_none()
    );
}

#[test]
fn normalization_uses_the_real_case_tables() {
    assert_eq!(normalize_text("ÉTÉ — Großer STRAẞE 12½"), "été großer straße 12½");
    assert_eq!(normalize_text("ΟΔΟΣ"), "οδος");
    assert_eq!(normalize_text(" \u{3000}\t ?! "), "");
}

#[test]
fn every_form_of_yes_and_no() {
    for yes in [
        "yes", "y", "Yeah!", "yep.", "CORRECT", "right", "thats right", "That is right",
    ] {
        assert!(is_affirmative(yes), "{yes}");
        assert!(!is_negative(yes), "{yes}");
    }
    for no in ["no", "N", "nope", "Wrong!", "Not that one."] {
        assert!(is_negative(no), "{no}");
        assert!(!is_affirmative(no), "{no}");
    }
    assert!(!is_affirmative("that's right"));
    assert!(!is_affirmative(""));
    assert!(!is_negative(""));
    assert!(is_yes("that is right") && !is_yes("Yes"));
    assert!(is_no("not that one") && !is_no("No"));
}

#[test]
fn titles_score_by_how_they_meet() {
    let jar = artwork(2, "Moon jar");
    assert_eq!(f64::from_bits(artwork_audio_stop_score("MOON-JAR", &jar).bits), 1.0);
    assert_eq!(f64::from_bits(artwork_audio_stop_score("A moon jar!", &jar).bits), 0.85);
    assert_eq!(f64::from_bits(artwork_audio_stop_score("moon", &jar).bits), 0.85);
    assert_eq!(f64::from_bits(artwork_audio_stop_score("Sun jar", &jar).bits), 0.0);
    assert_eq!(score_titles("a", "a").bits, 1.0f64.to_bits());
    assert!(do_titles_meet("ab", "b") && do_titles_meet("b", "ab") && !do_titles_meet("a", "b"));
}

#[test]
fn the_first_artwork_that_meets_is_found() {
    let artworks = vec![artwork(1, "Jar"), artwork(2, "Moon jar")];
    assert_eq!(find_artwork_for_audio_stop(&artworks, "moon jar").map(|a| a.id), Some(1));
    assert_eq!(find_artwork_for_audio_stop(&artworks, "moon").map(|a| a.id), Some(2));
    assert_eq!(find_artwork_for_audio_stop(&artworks, "").map(|a| a.id), Some(1));
    assert!(find_artwork_for_audio_stop(&[], "jar").is_none());
}

#[test]
fn terms_are_put_in_the_singular() {
    assert_eq!(singularize_term("lilies"), "lily");
    assert_eq!(singularize_term("ies"), "y");
    assert_eq!(singularize_term("waves"), "wave");
    assert_eq!(singularize_term("glass"), "gla");
    assert_eq!(singularize_term("gas"), "gas");
    assert_eq!(singularize_term("jar"), "jar");
}

#[test]
fn queries_hold_each_term_once_in_order() {
    assert_eq!(build_fts_query("The big waves with a boat, and boats!"), "boat OR wave");
    assert_eq!(build_fts_query("Lilies"), "lily");
    assert_eq!(build_fts_query("of a"), "of a");
    assert_eq!(build_fts_query("this painting"), "this painting");
    assert_eq!(build_fts_query(""), "");
    // Length is counted in bytes: two letters of two bytes each make a term.
    assert_eq!(build_fts_query("éé zz"), "éé");
    assert_eq!(fts_query_of("zebra apple zebras"), "apple OR zebra");
}

#[test]
fn plain_words_stay_as_they_are() {
    for s in ["", "a--b  c!", "été\u{2003}12½ ", "Upper_case"] {
        let once = plain_words(s);
        assert_eq!(plain_words(&once), once);
    }
    assert_eq!(plain_words("a--b  C!"), "a b C");
}

#[test]
fn normalizing_twice_or_in_capitals_changes_nothing() {
    for s in ["Moo Lisa!!", "  Audio Stop: 102 ", "Yes — that’s right", "", "a_b"] {
        let once = normalize_text(s);
        assert_eq!(normalize_text(&once), once);
        assert_eq!(normalize_text(&s.to_ascii_uppercase()), once);
        assert_eq!(is_affirmative(&once), is_affirmative(s));
        assert_eq!(is_negative(&once), is_negative(s));
    }
    for s in ["YES!", "That is right", "n", "maybe"] {
        assert_eq!(is_affirmative(&normalize_text(s)), is_affirmative(s));
        assert_eq!(is_negative(&normalize_text(s)), is_negative(s));
    }
}

#[test]
fn ascii_is_lowered_and_told_apart_as_the_contracts_say() {
    for c in '\0'..='\u{7f}' {
        let s = c.to_string();
        assert_eq!(s.to_lowercase(), s.to_ascii_lowercase());
        assert_eq!(c.is_alphanumeric(), c.is_ascii_alphanumeric());
    }
    for c in '\0'..=char::MAX {
        assert!(!c.to_string().to_lowercase().chars().any(|d| d.is_ascii_uppercase()), "{c:?}");
    }
}

#[test]
fn queries_depend_on_the_words_alone() {
    let query = build_fts_query("blue waves boat");
    assert_eq!(query, "blue OR boat OR wave");
    assert_eq!(build_fts_query("boat, boat: WAVES; blue -- waves"), query);
    assert_eq!(fts_query_of("waves boat boat blue"), query);
    // Without a term the text itself is the query, in its own order.
    assert_ne!(fts_query_of("of a"), fts_query_of("a of"));
}
