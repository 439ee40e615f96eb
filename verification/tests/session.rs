use lingo::capture::clean_selection;
use lingo::commands::{pick_test_target, test_config};
use lingo::config::Config;
use lingo::session::PopupSession;
use lingo::types::{ProviderKind, Translation};

fn session(src: &str, tgt: &str, detected: Option<&str>) -> PopupSession {
    PopupSession {
        src: src.into(),
        tgt: tgt.into(),
        pinned: false,
        last_primary: None,
        last_detected: detected.map(String::from),
    }
}

#[test]
fn swapping_explicit_languages_twice_restores_them() {
    let mut s = session("nl", "en", None);
    assert_eq!(s.swap_langs(), Some(("en".to_string(), "nl".to_string())));
    assert_eq!((s.src.as_str(), s.tgt.as_str()), ("en", "nl"));
    assert_eq!(s.swap_langs(), Some(("nl".to_string(), "en".to_string())));
    assert_eq!((s.src.as_str(), s.tgt.as_str()), ("nl", "en"));
}

#[test]
fn auto_source_swaps_with_the_detected_language() {
    let mut s = session("auto", "en", Some("nl"));
    assert_eq!(s.swap_langs(), Some(("en".to_string(), "nl".to_string())));
    assert_eq!((s.src.as_str(), s.tgt.as_str()), ("en", "nl"));
}

#[test]
fn nothing_to_swap_leaves_the_session_alone() {
    let mut s = session("auto", "en", None);
    assert_eq!(s.swap_langs(), None);
    assert_eq!((s.src.as_str(), s.tgt.as_str()), ("auto", "en"));
    let mut s = session("auto", "he", Some("iw"));
    assert_eq!(s.swap_langs(), None);
    assert_eq!((s.src.as_str(), s.tgt.as_str()), ("auto", "he"));
}

#[test]
fn pin_toggles_and_show_resets() {
    let mut s = PopupSession::default();
    assert!(s.toggle_pin());
    assert!(!s.toggle_pin());
    assert!(s.toggle_pin());
    s.last_primary = Some("x".into());
    let (src, tgt) = s.reset_for_show("he");
    assert_eq!((src.as_str(), tgt.as_str()), ("auto", "he"));
    assert!(!s.pinned);
    assert_eq!(s.src, "auto");
    assert_eq!(s.tgt, "he");
    assert!(s.last_primary.is_none());
}

#[test]
fn results_are_remembered_for_copy_and_swap() {
    let mut s = session("auto", "en", None);
    s.record_result(&Translation {
        request_id: 1,
        primary: "boy".into(),
        alternatives: vec![],
        definitions: vec![],
        detected_lang: Some("nl".into()),
    });
    assert_eq!(s.last_primary.as_deref(), Some("boy"));
    assert_eq!(s.last_detected.as_deref(), Some("nl"));
    s.set_langs("de".into(), "fr".into());
    assert_eq!((s.src.as_str(), s.tgt.as_str()), ("de", "fr"));
}

#[test]
fn selections_are_trimmed_and_blank_ones_dropped() {
    assert_eq!(clean_selection(Some("  hallo \n".into())).as_deref(), Some("hallo"));
    assert_eq!(clean_selection(Some(" \t ".into())), None);
    assert_eq!(clean_selection(None), None);
}

#[test]
fn provider_test_picks_a_supported_target() {
    assert_eq!(pick_test_target(&vec!["ar", "nl", "zh-CN"]), "nl");
    assert_eq!(pick_test_target(&vec!["ar", "bg"]), "ar");
    assert_eq!(pick_test_target(&vec![]), "en");
}

#[test]
fn provider_test_config_carries_the_candidate_key() {
    let base = Config::default();
    let c = test_config(&base, ProviderKind::DeepL, "k".into());
    assert_eq!(c.provider, ProviderKind::DeepL);
    assert_eq!(c.api_key(ProviderKind::DeepL), "k");
    let c = test_config(&base, ProviderKind::GoogleFree, "ignored".into());
    assert_eq!(c.provider, ProviderKind::GoogleFree);
    assert_eq!(c.api_key(ProviderKind::GoogleFree), "");
    assert_eq!(c.hotkey, "Ctrl+L");
}
