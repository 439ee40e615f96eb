use lingo::translate::{
    finish_translation, http_status_error, is_dictionary_query, status_error, trim_alternatives, wants_dictionary,
    RequestCounter, MAX_TERMS_PER_POS,
};
use lingo::types::{Definition, DictEntry, ProviderError, ProviderKind, ScoredTerm, Translation};

/// Scores are held in billionths.
fn score(f: f64) -> i64 {
    (f * 1e9).round() as i64
}

fn entry(pos: &str, terms: &[(&str, f64)]) -> DictEntry {
    DictEntry {
        pos: pos.into(),
        terms: terms
            .iter()
            .map(|(t, s)| ScoredTerm { term: t.to_string(), score: score(*s) })
            .collect(),
    }
}

#[test]
fn dictionary_heuristic() {
    assert!(is_dictionary_query("schön"));
    assert!(is_dictionary_query("  hello world  "));
    assert!(is_dictionary_query("להתראות"));
    assert!(!is_dictionary_query(""));
    assert!(!is_dictionary_query("   "));
    assert!(!is_dictionary_query("one two three"));
    assert!(!is_dictionary_query("hello."));
    assert!(!is_dictionary_query("what?"));
    assert!(!is_dictionary_query("a;b"));
    assert!(!is_dictionary_query("note: this"));
}

#[test]
fn trim_caps_group_size_and_keeps_unscored_groups() {
    let mut alternatives = vec![DictEntry {
        pos: "noun".into(),
        terms: (0..10)
            .map(|i| ScoredTerm {
                term: format!("t{i}"),
                score: 0,
            })
            .collect(),
    }];
    trim_alternatives(&mut alternatives);
    // No scores at all: nothing to rank by, just cap the list.
    assert_eq!(alternatives[0].terms.len(), MAX_TERMS_PER_POS);
}

#[test]
fn trim_drops_groups_left_empty() {
    let mut alternatives = vec![entry("noun", &[("top", 1.0), ("dust", 1e-7)])];
    trim_alternatives(&mut alternatives);
    assert_eq!(alternatives[0].terms.len(), 1);
    assert_eq!(alternatives[0].terms[0].term, "top");
}

#[test]
fn trimming_twice_changes_nothing() {
    let mut once = vec![
        entry("a", &[("x1", 0.1), ("x2", 0.1), ("x3", 0.1), ("x4", 0.1), ("x5", 0.1), ("x6", 0.1), ("best", 0.9)]),
        entry("b", &[("z", 0.0)]),
        DictEntry { pos: "c".into(), terms: vec![] },
    ];
    trim_alternatives(&mut once);
    let mut twice = once.clone();
    trim_alternatives(&mut twice);
    assert_eq!(once, twice);
    assert_eq!(once.len(), 2);
    assert!(once.iter().all(|g| !g.terms.is_empty() && g.terms.len() <= MAX_TERMS_PER_POS));
}

#[test]
fn threshold_is_one_two_thousandth_of_the_best() {
    let mut alternatives = vec![DictEntry {
        pos: "noun".into(),
        terms: vec![
            ScoredTerm { term: "best".into(), score: 2_000_000 },
            ScoredTerm { term: "edge".into(), score: 1_000 },
            ScoredTerm { term: "below".into(), score: 999 },
        ],
    }];
    trim_alternatives(&mut alternatives);
    let kept: Vec<&str> = alternatives[0].terms.iter().map(|s| s.term.as_str()).collect();
    assert_eq!(kept, vec!["best", "edge"]);
}

#[test]
fn dictionary_wanted_only_for_word_queries_from_capable_providers() {
    assert!(wants_dictionary("hallo", ProviderKind::GoogleFree.supports_dictionary()));
    assert!(!wants_dictionary("hallo", ProviderKind::DeepL.supports_dictionary()));
    assert!(!wants_dictionary("Is dit een zin?", true));
}

fn sample_translation() -> Translation {
    Translation {
        request_id: 0,
        primary: "boy".into(),
        alternatives: vec![entry("noun", &[("boy", 0.5), ("get", 1e-9)])],
        definitions: vec![Definition { pos: "noun".into(), text: "a male child".into() }],
        detected_lang: Some("nl".into()),
    }
}

#[test]
fn finished_translation_drops_unrequested_dictionary_data() {
    let t = finish_translation(sample_translation(), 42, false);
    assert_eq!(t.request_id, 42);
    assert_eq!(t.primary, "boy");
    assert!(t.alternatives.is_empty());
    assert!(t.definitions.is_empty());
    assert_eq!(t.detected_lang.as_deref(), Some("nl"));

    let t = finish_translation(sample_translation(), 43, true);
    assert_eq!(t.request_id, 43);
    assert_eq!(t.alternatives[0].terms.len(), 1);
    assert_eq!(t.definitions.len(), 1);
}

#[test]
fn http_statuses_map_to_provider_errors() {
    assert!(matches!(http_status_error(429, "429 Too Many Requests"), Some(ProviderError::RateLimited)));
    assert!(http_status_error(200, "200 OK").is_none());
    assert!(matches!(
        http_status_error(503, "503 Service Unavailable"),
        Some(ProviderError::Network(m)) if m == "http 503 Service Unavailable"
    ));
}

#[test]
fn request_ids_start_at_one_and_increase() {
    let mut counter = RequestCounter::new();
    assert_eq!(counter.last(), 0);
    let a = counter.next();
    let b = counter.next();
    let c = counter.next();
    assert_eq!((a, b, c), (1, 2, 3));
    assert_eq!(counter.last(), 3);
}

#[test]
fn statuses_are_shown_as_reqwest_shows_them() {
    assert!(status_error(200).is_none());
    assert!(status_error(204).is_none());
    assert!(matches!(status_error(429), Some(ProviderError::RateLimited)));
    assert!(matches!(
        status_error(503),
        Some(ProviderError::Network(m)) if m == "http 503 Service Unavailable"
    ));
    assert!(matches!(
        status_error(404),
        Some(ProviderError::Network(m)) if m == "http 404 Not Found"
    ));
    assert!(matches!(
        status_error(599),
        Some(ProviderError::Network(m)) if m == "http 599 <unknown status code>"
    ));
}
