use lingo::json::Json;
use lingo::translate::google::{finish_google, locate_definitions, parse_dictionary, parse_response};
use lingo::translate::trim_alternatives;
use lingo::types::ProviderError;

fn s(t: &str) -> Json {
    Json::Str(t.to_string())
}

fn arr(v: Vec<Json>) -> Json {
    Json::Array(v)
}

/// Shaped like the response for "schön" de->en: segments, a dictionary with
/// a scored list whose tail entry has no score, and the detected language.
fn word_de_en() -> Json {
    arr(vec![
        arr(vec![arr(vec![s("nice"), s("schön"), Json::Null, Json::Null, Json::Number(10)])]),
        arr(vec![
            arr(vec![
                s("adjective"),
                arr(vec![s("beautiful"), s("nice")]),
                arr(vec![
                    arr(vec![s("beautiful"), arr(vec![s("schön")]), Json::Null, Json::Number(443_747_300)]),
                    arr(vec![s("nice"), arr(vec![s("schön")]), Json::Null, Json::Number(106_000_000)]),
                    arr(vec![s("nice-looking"), arr(vec![s("schön")])]),
                ]),
                s("schön"),
                Json::Number(3),
            ]),
            arr(vec![s("adverb"), arr(vec![s("nicely")])]),
        ]),
        s("de"),
        Json::Null,
        Json::Null,
    ])
}

#[test]
fn word_with_dictionary() {
    let t = parse_response(Some(word_de_en()), 7).unwrap();
    assert_eq!(t.request_id, 7);
    assert_eq!(t.primary, "nice");
    assert_eq!(t.detected_lang.as_deref(), Some("de"));
    assert_eq!(t.alternatives.len(), 2);
    let adjective = &t.alternatives[0];
    assert_eq!(adjective.pos, "adjective");
    assert_eq!(adjective.terms[0].term, "beautiful");
    assert_eq!(adjective.terms[0].score, 443_747_300);
    // Tail entry without a score parses with score 0.
    let last = adjective.terms.last().unwrap();
    assert_eq!(last.term, "nice-looking");
    assert_eq!(last.score, 0);
    // The adverb group has no scored list: the plain one is used.
    assert_eq!(t.alternatives[1].pos, "adverb");
    assert_eq!(t.alternatives[1].terms[0].term, "nicely");
    assert_eq!(t.alternatives[1].terms[0].score, 0);
    assert!(t.definitions.is_empty());
}

#[test]
fn html_error_body_maps_to_network_error() {
    // An HTML error page is not JSON at all: reading it as JSON gives nothing.
    let body = "<html><body><h1>429 Too Many Requests</h1></body></html>";
    let parsed = serde_json::from_str::<serde_json::Value>(body).ok();
    assert!(parsed.is_none());
    let err = parse_response(None, 5).unwrap_err();
    assert!(matches!(err, ProviderError::Network(_)));
    assert!(err.retryable());
}

#[test]
fn garbage_and_wrong_shapes_map_to_network_error() {
    assert!(matches!(parse_response(None, 1), Err(ProviderError::Network(_))));
    assert!(matches!(
        parse_response(Some(Json::Object(vec![("not".to_string(), s("an array"))])), 1),
        Err(ProviderError::Network(_))
    ));
    assert!(matches!(
        parse_response(Some(arr(vec![Json::Null, Json::Null, Json::Null])), 1),
        Err(ProviderError::Network(_))
    ));
}

#[test]
fn hebrew_detected_lang_is_normalized() {
    let root = arr(vec![
        arr(vec![
            arr(vec![s("Hope is a thing "), s("x")]),
            arr(vec![Json::Null, s("skipped")]),
            arr(vec![s("with feathers")]),
        ]),
        Json::Null,
        s("iw"),
    ]);
    let t = parse_response(Some(root), 3).unwrap();
    assert_eq!(t.primary, "Hope is a thing with feathers");
    assert_eq!(t.detected_lang.as_deref(), Some("he"));
    assert!(t.alternatives.is_empty());
    assert!(t.definitions.is_empty());
}

fn md_group(pos: &str, defs: &[&str]) -> Json {
    arr(vec![
        s(pos),
        arr(defs.iter().map(|d| arr(vec![s(d), s("m_en_1")])).collect()),
        s("hello"),
    ])
}

#[test]
fn null_dictionary_with_definitions_present() {
    let root = arr(vec![
        arr(vec![arr(vec![s("hello")])]),
        Json::Null,
        s("en"),
        Json::Null,
        // The bd-shaped block carries a string list at index 1: not md.
        arr(vec![arr(vec![s("noun"), arr(vec![s("hi")])])]),
        arr(vec![
            md_group("exclamation", &["used as a greeting", "used to attract attention"]),
            md_group("noun", &["an utterance of \"hello\""]),
        ]),
        arr(vec![md_group("verb", &["later block, never read"])]),
    ]);
    let t = parse_response(Some(root), 4).unwrap();
    assert_eq!(t.primary, "hello");
    assert!(t.alternatives.is_empty());
    assert_eq!(t.definitions.len(), 3);
    assert_eq!(t.definitions[0].pos, "exclamation");
    assert_eq!(t.definitions[0].text, "used as a greeting");
    assert_eq!(t.definitions[2].pos, "noun");
}

#[test]
fn md_shape_is_not_searched_before_index_three() {
    let md = arr(vec![md_group("noun", &["x"])]);
    let root = vec![arr(vec![arr(vec![s("a")])]), Json::Null, md];
    assert!(locate_definitions(&root).is_empty());
}

#[test]
fn dictionary_groups_without_terms_or_pos_are_skipped() {
    let bd = arr(vec![
        arr(vec![s("noun"), arr(vec![])]),
        arr(vec![Json::Null, arr(vec![s("orphan")])]),
        arr(vec![s("verb"), arr(vec![s("go")]), arr(vec![arr(vec![Json::Number(1)])])]),
        arr(vec![s("adverb"), arr(vec![s("fast"), Json::Number(2)])]),
    ]);
    let groups = parse_dictionary(Some(&bd));
    assert_eq!(groups.len(), 1);
    assert_eq!(groups[0].pos, "adverb");
    assert_eq!(groups[0].terms.len(), 1);
    assert!(parse_dictionary(Some(&s("not a list"))).is_empty());
    assert!(parse_dictionary(None).is_empty());
}

/// Billionths of a score.
fn n(score: f64) -> Json {
    Json::Number((score * 1e9).round() as i64)
}

fn scored(term: &str, score: Option<f64>) -> Json {
    let mut v = vec![s(term), arr(vec![s("x")]), Json::Null];
    if let Some(sc) = score {
        v.push(n(sc));
    }
    arr(v)
}

/// Shaped like the response for "jongen" nl->en: the noun tail holds curios
/// like "get" and "loon" at ~1e-6 vs "boy" at 0.68; the verb group's scores
/// are mutually close.
fn word_nl_en() -> Json {
    arr(vec![
        arr(vec![arr(vec![s("boy"), s("jongen")])]),
        arr(vec![
            arr(vec![
                s("noun"),
                arr(vec![s("boy"), s("lad")]),
                arr(vec![
                    scored("boy", Some(0.68)),
                    scored("lad", Some(0.021)),
                    scored("pup", Some(0.00041)),
                    scored("youngster", Some(0.0000105)),
                    scored("laddie", Some(0.0000031)),
                    scored("loon", Some(0.0000012)),
                    scored("get", Some(0.0000010)),
                ]),
            ]),
            arr(vec![
                s("verb"),
                arr(vec![s("breed")]),
                arr(vec![
                    scored("breed", Some(0.0021)),
                    scored("kitten", Some(0.0018)),
                    scored("whelp", Some(0.0015)),
                ]),
            ]),
        ]),
        s("nl"),
    ])
}

#[test]
fn dutch_word_parses_full_tail() {
    // Trimming happens in the orchestrator; the parser keeps everything.
    let t = parse_response(Some(word_nl_en()), 8).unwrap();
    assert_eq!(t.primary, "boy");
    assert_eq!(t.detected_lang.as_deref(), Some("nl"));
    assert_eq!(t.alternatives[0].terms.len(), 7);
    assert_eq!(t.alternatives[0].terms.last().unwrap().term, "get");
}

#[test]
fn trims_long_tail_terms_from_recorded_response() {
    let mut t = parse_response(Some(word_nl_en()), 1).unwrap();
    trim_alternatives(&mut t.alternatives);
    let noun: Vec<&str> = t.alternatives[0].terms.iter().map(|s| s.term.as_str()).collect();
    assert_eq!(noun, vec!["boy", "lad", "pup"]);
    let verb: Vec<&str> = t.alternatives[1].terms.iter().map(|s| s.term.as_str()).collect();
    assert_eq!(verb, vec!["breed", "kitten", "whelp"]);
}

#[test]
fn sentence_has_no_dictionary_data() {
    let root = arr(vec![
        arr(vec![
            arr(vec![s("The art is not difficult, "), s("De kunst is niet moeilijk, ")]),
            arr(vec![s("but it takes patience and practice."), s("maar vraagt geduld en oefening.")]),
        ]),
        Json::Null,
        s("nl"),
        Json::Null,
        n(1.0),
    ]);
    let t = parse_response(Some(root), 2).unwrap();
    assert_eq!(t.primary, "The art is not difficult, but it takes patience and practice.");
    assert_eq!(t.detected_lang.as_deref(), Some("nl"));
    assert!(t.alternatives.is_empty());
    assert!(t.definitions.is_empty());
}

#[test]
fn word_with_definitions_and_hebrew_terms() {
    let root = arr(vec![
        arr(vec![arr(vec![s("לְקַווֹת"), s("hope")])]),
        arr(vec![
            arr(vec![s("verb"), arr(vec![s("לְקַווֹת")]), arr(vec![scored("לְקַווֹת", Some(0.3))])]),
            arr(vec![s("noun"), arr(vec![s("תִקוָה")]), arr(vec![scored("תִקוָה", Some(0.6)), scored("סִכּוּי", None)])]),
        ]),
        s("en"),
        Json::Null,
        Json::Null,
        arr(vec![
            md_group("noun", &["a feeling of expectation and desire for a certain thing to happen.", "a person or thing that may help."]),
            md_group("verb", &["want something to happen or be the case."]),
        ]),
    ]);
    let t = parse_response(Some(root), 1).unwrap();
    assert_eq!(t.primary, "לְקַווֹת");
    assert_eq!(t.detected_lang.as_deref(), Some("en"));
    let poses: Vec<&str> = t.alternatives.iter().map(|d| d.pos.as_str()).collect();
    assert_eq!(poses, vec!["verb", "noun"]);
    assert_eq!(t.alternatives[1].terms[0].term, "תִקוָה");
    assert_eq!(t.definitions.len(), 3);
    assert_eq!(t.definitions[0].pos, "noun");
    assert!(t.definitions[0].text.starts_with("a feeling of expectation"));
    assert_eq!(t.definitions[2].pos, "verb");
}

#[test]
fn google_reply_status_comes_before_the_body() {
    assert!(matches!(finish_google(429, Ok(Some(word_de_en())), 3), Err(ProviderError::RateLimited)));
    assert!(matches!(
        finish_google(500, Ok(Some(word_de_en())), 3),
        Err(ProviderError::Network(m)) if m == "http 500 Internal Server Error"
    ));
    assert!(matches!(
        finish_google(200, Err(ProviderError::Network("reset".to_string())), 3),
        Err(ProviderError::Network(m)) if m == "reset"
    ));
    assert!(matches!(
        finish_google(200, Ok(None), 3),
        Err(ProviderError::Network(m)) if m == "unexpected response from translator"
    ));
    let t = finish_google(200, Ok(Some(word_de_en())), 3).unwrap();
    assert_eq!(t.request_id, 3);
    assert_eq!(t.primary, "nice");
}
