use lingo::config::{
    choose_loaded, is_hex_color, merge_patch, plan_update, step_aborts, theme_override,
    update_steps, validate, ApiKeys, Config, ConfigError, UpdateStep, WindowTheme,
};
use lingo::json::Json;
use lingo::types::{ProviderKind, Theme};

fn config_with(mutate: impl FnOnce(&mut Config)) -> Config {
    let mut config = Config::default();
    mutate(&mut config);
    config
}

#[test]
fn defaults_are_valid() {
    validate(&Config::default()).unwrap();
}

#[test]
fn default_config_values() {
    let c = Config::default();
    assert_eq!(c.hotkey, "Ctrl+L");
    assert_eq!(c.provider, ProviderKind::GoogleFree);
    assert_eq!(c.target_lang, "en");
    assert_eq!(c.lang_preferences, vec!["en", "he", "nl"]);
    assert!(!c.launch_at_startup);
    assert_eq!(c.theme, Theme::System);
}

#[test]
fn validate_rejects_bad_hotkey() {
    let c = config_with(|c| c.hotkey = "NotAKey+definitely".into());
    assert!(matches!(validate(&c), Err(ConfigError::InvalidHotkey(_))));
}

#[test]
fn validate_rejects_empty_and_duplicate_prefs() {
    let c = config_with(|c| c.lang_preferences = vec![]);
    assert!(validate(&c).is_err());
    let c = config_with(|c| c.lang_preferences = vec!["en".into(), "EN".into()]);
    assert!(validate(&c).is_err());
}

#[test]
fn validate_rejects_source_equal_to_target() {
    assert!(validate(&config_with(|c| c.source_lang = "en".into())).is_err());
    assert!(validate(&config_with(|c| {
        c.source_lang = "iw".into();
        c.target_lang = "he".into();
    }))
    .is_err());
    assert!(validate(&config_with(|c| c.source_lang = "auto".into())).is_ok());
    assert!(validate(&config_with(|c| {
        c.source_lang = "nl".into();
        c.target_lang = "en".into();
    }))
    .is_ok());
}

#[test]
fn validate_rejects_bad_accent() {
    assert!(validate(&config_with(|c| c.accent = "blue".into())).is_err());
    assert!(validate(&config_with(|c| c.accent = "#12345".into())).is_err());
    assert!(validate(&config_with(|c| c.accent = "#4F46E5".into())).is_ok());
}

fn invalid_message(c: &Config) -> String {
    match validate(c) {
        Err(ConfigError::Invalid(m)) => m,
        other => panic!("expected an invalid-config error, got {other:?}"),
    }
}

#[test]
fn validation_reports_the_first_broken_rule() {
    assert_eq!(invalid_message(&config_with(|c| c.target_lang = " ".into())), "target language is empty");
    assert_eq!(invalid_message(&config_with(|c| c.source_lang = "\t".into())), "source language is empty");
    assert_eq!(
        invalid_message(&config_with(|c| c.source_lang = "EN".into())),
        "source and target languages are the same"
    );
    assert_eq!(invalid_message(&config_with(|c| c.lang_preferences = vec![])), "language preference list is empty");
    assert_eq!(
        invalid_message(&config_with(|c| c.lang_preferences = vec!["en".into(), "  ".into()])),
        "language preference list contains an empty code"
    );
    assert_eq!(
        invalid_message(&config_with(|c| c.lang_preferences = vec!["nl".into(), "he".into(), "Nl".into()])),
        "language preference list contains duplicates"
    );
    assert_eq!(invalid_message(&config_with(|c| c.accent = "#xyz".into())), "'#xyz' is not a hex color");
    let e = validate(&config_with(|c| c.hotkey = "Ctrl+".into())).unwrap_err();
    assert_eq!(e.kind(), "invalid_hotkey");
    assert_eq!(e.message(), "'Ctrl+' is not a valid shortcut");
}

#[test]
fn hex_colors() {
    assert!(is_hex_color("#abc"));
    assert!(is_hex_color("#A1B2C3"));
    assert!(!is_hex_color("abc"));
    assert!(!is_hex_color("#abcd"));
    assert!(!is_hex_color("#ggg"));
    assert!(!is_hex_color("#é1"));
}

#[test]
fn error_kinds_and_messages() {
    assert_eq!(ConfigError::HotkeyInUse.kind(), "hotkey_in_use");
    assert_eq!(ConfigError::HotkeyInUse.message(), "shortcut is already in use by another app");
    assert_eq!(ConfigError::Invalid("x".into()).kind(), "invalid_config");
    assert_eq!(ConfigError::Io("disk".into()).kind(), "io");
    assert_eq!(ConfigError::Io("disk".into()).message(), "disk");
}

fn config_json() -> Json {
    let s = |t: &str| Json::Str(t.to_string());
    Json::Object(vec![
        ("accent".to_string(), s("#4F46E5")),
        ("api_keys".to_string(), Json::Object(vec![])),
        ("hotkey".to_string(), s("Ctrl+L")),
        ("lang_preferences".to_string(), Json::Array(vec![s("en"), s("he"), s("nl")])),
        ("launch_at_startup".to_string(), Json::Bool(false)),
        ("provider".to_string(), s("GoogleFree")),
        ("source_lang".to_string(), s("auto")),
        ("target_lang".to_string(), s("en")),
        ("theme".to_string(), s("System")),
    ])
}

fn member<'a>(j: &'a Json, key: &str) -> &'a Json {
    match j {
        Json::Object(members) => &members.iter().find(|(k, _)| k == key).unwrap().1,
        _ => panic!("not an object"),
    }
}

#[test]
fn merge_patch_replaces_top_level_fields() {
    let patch = Json::Object(vec![
        (
            "api_keys".to_string(),
            Json::Object(vec![("DeepL".to_string(), Json::Str("k:fx".to_string()))]),
        ),
        ("provider".to_string(), Json::Str("DeepL".to_string())),
    ]);
    let merged = merge_patch(config_json(), patch).unwrap();
    assert!(matches!(member(&merged, "provider"), Json::Str(p) if p == "DeepL"));
    assert!(matches!(member(member(&merged, "api_keys"), "DeepL"), Json::Str(k) if k == "k:fx"));
    assert!(matches!(member(&merged, "hotkey"), Json::Str(h) if h == "Ctrl+L"));
    match &merged {
        Json::Object(m) => assert_eq!(m.len(), 9),
        _ => panic!("not an object"),
    }
}

#[test]
fn merge_patch_rejects_unknown_fields() {
    let patch = Json::Object(vec![("nope".to_string(), Json::Number(1_000_000_000))]);
    assert!(matches!(
        merge_patch(config_json(), patch),
        Err(ConfigError::Invalid(m)) if m == "unknown config field 'nope'"
    ));
}

#[test]
fn merge_patch_needs_objects_and_keeps_config_on_empty_patch() {
    assert!(matches!(
        merge_patch(config_json(), Json::Array(vec![])),
        Err(ConfigError::Invalid(m)) if m == "patch must be an object"
    ));
    let merged = merge_patch(config_json(), Json::Object(vec![])).unwrap();
    assert!(matches!(member(&merged, "target_lang"), Json::Str(t) if t == "en"));
}

fn same_json(a: &Json, b: &Json) -> bool {
    match (a, b) {
        (Json::Null, Json::Null) => true,
        (Json::Bool(x), Json::Bool(y)) => x == y,
        (Json::Number(x), Json::Number(y)) => x == y,
        (Json::Str(x), Json::Str(y)) => x == y,
        (Json::Array(x), Json::Array(y)) => {
            x.len() == y.len() && x.iter().zip(y.iter()).all(|(p, q)| same_json(p, q))
        }
        (Json::Object(x), Json::Object(y)) => {
            x.len() == y.len()
                && x.iter().zip(y.iter()).all(|((kp, p), (kq, q))| kp == kq && same_json(p, q))
        }
        _ => false,
    }
}

#[test]
fn merge_patch_with_empty_patch_is_the_config_itself() {
    let merged = merge_patch(config_json(), Json::Object(vec![])).unwrap();
    assert!(same_json(&merged, &config_json()));
}

#[test]
fn merge_patch_keeps_unnamed_fields_and_their_order() {
    let patch = Json::Object(vec![("theme".to_string(), Json::Str("Dark".to_string()))]);
    let merged = merge_patch(config_json(), patch).unwrap();
    let (Json::Object(out), Json::Object(before)) = (&merged, &config_json()) else {
        panic!("not objects");
    };
    assert_eq!(out.len(), before.len());
    for ((k, v), (k0, v0)) in out.iter().zip(before.iter()) {
        assert_eq!(k, k0);
        if k == "theme" {
            assert!(matches!(v, Json::Str(t) if t == "Dark"));
        } else {
            assert!(same_json(v, v0));
        }
    }
}

#[test]
fn stored_config_is_used_only_when_valid() {
    let stored = config_with(|c| c.target_lang = "nl".into());
    assert_eq!(choose_loaded(Some(stored)).target_lang, "nl");
    let broken = config_with(|c| c.accent = "red".into());
    assert_eq!(choose_loaded(Some(broken)).accent, "#4F46E5");
    assert_eq!(choose_loaded(None).hotkey, "Ctrl+L");
}

#[test]
fn update_plan_names_only_what_changed() {
    let old = Config::default();
    let new = config_with(|c| {
        c.hotkey = "Alt+F9".into();
        c.theme = Theme::Dark;
    });
    let plan = plan_update(&old, &new);
    assert!(plan.remap_hotkey);
    assert_eq!(plan.autostart, None);
    assert_eq!(plan.theme, Some(Theme::Dark));
    let plan = plan_update(&old, &config_with(|c| c.launch_at_startup = true));
    assert!(!plan.remap_hotkey);
    assert_eq!(plan.autostart, Some(true));
    assert_eq!(plan.theme, None);
}

#[test]
fn update_swaps_the_shortcut_first_and_commits_last() {
    let old = Config::default();
    let new = config_with(|c| {
        c.hotkey = "Alt+F9".into();
        c.launch_at_startup = true;
        c.theme = Theme::Light;
    });
    assert_eq!(
        update_steps(&plan_update(&old, &new)),
        vec![
            UpdateStep::RegisterHotkey,
            UpdateStep::ReleaseOldHotkey,
            UpdateStep::SetAutostart(true),
            UpdateStep::ApplyTheme(Theme::Light),
            UpdateStep::Persist,
            UpdateStep::Commit,
        ]
    );
    assert_eq!(
        update_steps(&plan_update(&old, &old)),
        vec![UpdateStep::Persist, UpdateStep::Commit]
    );
}

#[test]
fn only_a_taken_shortcut_or_a_failed_write_aborts_an_update() {
    assert!(step_aborts(UpdateStep::RegisterHotkey));
    assert!(step_aborts(UpdateStep::Persist));
    assert!(!step_aborts(UpdateStep::ReleaseOldHotkey));
    assert!(!step_aborts(UpdateStep::SetAutostart(false)));
    assert!(!step_aborts(UpdateStep::ApplyTheme(Theme::Dark)));
    assert!(!step_aborts(UpdateStep::Commit));
}

#[test]
fn themes_map_to_window_overrides() {
    assert_eq!(theme_override(Theme::System), None);
    assert_eq!(theme_override(Theme::Light), Some(WindowTheme::Light));
    assert_eq!(theme_override(Theme::Dark), Some(WindowTheme::Dark));
}

#[test]
fn api_keys_read_back_what_was_stored() {
    let mut keys = ApiKeys::new();
    assert!(keys.get(ProviderKind::DeepL).is_none());
    keys.insert(ProviderKind::DeepL, "abc".to_string());
    assert_eq!(keys.get(ProviderKind::DeepL).unwrap(), "abc");
    assert!(keys.get(ProviderKind::GoogleFree).is_none());
    keys.insert(ProviderKind::DeepL, "def".to_string());
    assert_eq!(keys.get(ProviderKind::DeepL).unwrap(), "def");
    assert_eq!(keys.entries(), vec![(ProviderKind::DeepL, "def".to_string())]);
    let c = config_with(|c| c.api_keys = keys);
    assert_eq!(c.api_key(ProviderKind::DeepL), "def");
    assert_eq!(c.api_key(ProviderKind::GoogleFree), "");
}
