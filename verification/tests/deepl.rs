use lingo::translate::deepl::{
    endpoint, finish_deepl, map_status, parse_response, plan_request, supported_langs, to_deepl_lang, DeepLEntry,
};
use lingo::types::{ProviderError, TranslateRequest};

#[test]
fn parses_documented_response_shape() {
    // {"translations":[{"detected_source_language":"DE","text":"beautiful"}]}
    let body = Some(vec![DeepLEntry {
        detected_source_language: Some("DE".to_string()),
        text: "beautiful".to_string(),
    }]);
    let t = parse_response(body, 9).unwrap();
    assert_eq!(t.request_id, 9);
    assert_eq!(t.primary, "beautiful");
    assert_eq!(t.detected_lang.as_deref(), Some("de"));
    assert!(t.alternatives.is_empty());
    assert!(t.definitions.is_empty());
}

#[test]
fn garbage_body_is_network_error() {
    // "<html>oops</html>" does not read as the documented shape.
    assert!(matches!(parse_response(None, 1), Err(ProviderError::Network(_))));
    // {"translations":[]}
    assert!(matches!(
        parse_response(Some(vec![]), 1),
        Err(ProviderError::Network(_))
    ));
}

#[test]
fn status_mapping_matches_deepl_docs() {
    assert!(map_status(200).is_none());
    assert!(matches!(map_status(401), Some(ProviderError::AuthFailed)));
    assert!(matches!(map_status(403), Some(ProviderError::AuthFailed)));
    assert!(matches!(map_status(456), Some(ProviderError::RateLimited)));
    assert!(matches!(map_status(429), Some(ProviderError::RateLimited)));
    assert!(matches!(map_status(500), Some(ProviderError::Network(_))));
}

#[test]
fn retryability_of_mapped_errors() {
    assert!(!map_status(403).unwrap().retryable());
    assert!(map_status(456).unwrap().retryable());
    assert!(map_status(503).unwrap().retryable());
}

#[test]
fn lang_codes_are_uppercased_for_deepl() {
    assert_eq!(to_deepl_lang("en"), "EN");
    assert_eq!(to_deepl_lang("he"), "HE");
    assert_eq!(to_deepl_lang("iw"), "HE");
    assert_eq!(to_deepl_lang("zh-CN"), "ZH");
    assert_eq!(to_deepl_lang("pt"), "PT");
}

#[test]
fn network_status_message_carries_the_code() {
    assert!(matches!(map_status(500), Some(ProviderError::Network(m)) if m == "http 500"));
    assert!(matches!(map_status(7), Some(ProviderError::Network(m)) if m == "http 7"));
    assert!(map_status(299).is_none());
    assert!(matches!(map_status(300), Some(ProviderError::Network(m)) if m == "http 300"));
}

#[test]
fn deepl_codes_follow_language_equality() {
    assert_eq!(to_deepl_lang(" PT-br "), "PT");
    assert_eq!(to_deepl_lang("zh"), "ZH");
    assert_eq!(to_deepl_lang("zh-TW"), to_deepl_lang("ZH"));
    assert_eq!(to_deepl_lang("in"), to_deepl_lang("id"));
}

#[test]
fn endpoint_follows_key_tier() {
    assert_eq!(endpoint("abc:fx"), "https://api-free.deepl.com/v2/translate");
    assert_eq!(endpoint("abc"), "https://api.deepl.com/v2/translate");
    assert_eq!(endpoint(":f"), "https://api.deepl.com/v2/translate");
}

#[test]
fn blank_key_is_rejected_before_any_request() {
    let req = TranslateRequest {
        request_id: 1,
        text: "hallo".into(),
        src: "auto".into(),
        tgt: "en".into(),
        want_dictionary: false,
    };
    assert!(matches!(plan_request("  ", &req), Err(ProviderError::AuthFailed)));
    let call = plan_request("k:fx", &req).unwrap();
    assert_eq!(call.endpoint, "https://api-free.deepl.com/v2/translate");
    assert_eq!(call.authorization, "DeepL-Auth-Key k:fx");
    assert_eq!(call.text, "hallo");
    assert_eq!(call.target_lang, "EN");
    assert!(call.source_lang.is_none());
    let req = TranslateRequest { src: "iw".into(), ..req };
    let call = plan_request("key", &req).unwrap();
    assert_eq!(call.source_lang.as_deref(), Some("HE"));
    assert_eq!(call.endpoint, "https://api.deepl.com/v2/translate");
}

#[test]
fn deepl_language_list() {
    let langs = supported_langs();
    assert_eq!(langs.len(), 33);
    assert_eq!(langs[0], "ar");
    assert_eq!(langs[32], "zh-CN");
    assert!(langs.contains(&"nl"));
}

#[test]
fn deepl_reply_status_comes_before_the_body() {
    let entries = || {
        Some(vec![DeepLEntry { detected_source_language: None, text: "mooi".to_string() }])
    };
    assert!(matches!(finish_deepl(403, Ok(entries()), 2), Err(ProviderError::AuthFailed)));
    assert!(matches!(finish_deepl(456, Ok(entries()), 2), Err(ProviderError::RateLimited)));
    assert!(matches!(
        finish_deepl(200, Err(ProviderError::Network("reset".to_string())), 2),
        Err(ProviderError::Network(m)) if m == "reset"
    ));
    assert!(matches!(
        finish_deepl(200, Ok(Some(vec![])), 2),
        Err(ProviderError::Network(m)) if m == "empty translations list"
    ));
    let t = finish_deepl(200, Ok(entries()), 2).unwrap();
    assert_eq!((t.request_id, t.primary.as_str()), (2, "mooi"));
}
