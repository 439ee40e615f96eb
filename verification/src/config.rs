//! User configuration: defaults, validation, shallow patching, and what an
//! update has to change.

use vstd::prelude::*;
use crate::types::{normalized, langs_equal, opt_view, Lang, ProviderKind, Theme};
use crate::text::{
    trim, ascii_lower, chars_of, lowered, same_chars, is_blank, is_auto, auto_code,
};
use crate::hotkey::{hotkey_accepted, hotkey_of, names_platform_modifier, parse};
use global_hotkey::hotkey::HotKey;
use crate::json::Json;

verus! {

/// The stored API key of each provider. Each provider has at most one key.
#[derive(Debug)]
pub struct ApiKeys {
    google_free: Option<String>,
    deepl: Option<String>,
}

impl View for ApiKeys {
    type V = Map<ProviderKind, Seq<char>>;

    closed spec fn view(&self) -> Map<ProviderKind, Seq<char>> {
        Map::new(
            |k: ProviderKind| self.slot(k) is Some,
            |k: ProviderKind| self.slot(k)->0,
        )
    }
}

/// The stored keys as a list, Google's first.
pub open spec fn key_entries(m: Map<ProviderKind, Seq<char>>) -> Seq<(ProviderKind, Seq<char>)> {
    let g = if m.contains_key(ProviderKind::GoogleFree) {
        seq![(ProviderKind::GoogleFree, m[ProviderKind::GoogleFree])]
    } else {
        seq![]
    };
    let d = if m.contains_key(ProviderKind::DeepL) {
        seq![(ProviderKind::DeepL, m[ProviderKind::DeepL])]
    } else {
        seq![]
    };
    g + d
}

impl ApiKeys {
    closed spec fn slot(&self, k: ProviderKind) -> Option<Seq<char>> {
        match k {
            ProviderKind::GoogleFree => opt_view(self.google_free),
            ProviderKind::DeepL => opt_view(self.deepl),
        }
    }

    pub fn new() -> (r: ApiKeys)
        ensures
            r@ == Map::<ProviderKind, Seq<char>>::empty(),
    {
        let r = ApiKeys { google_free: None, deepl: None };
        assert(r@ =~= Map::<ProviderKind, Seq<char>>::empty());
        r
    }

    /// The key stored for `kind`, if any.
    pub open spec fn key_of(self, kind: ProviderKind) -> Option<Seq<char>> {
        if self@.contains_key(kind) {
            Some(self@[kind])
        } else {
            None
        }
    }

    /// `after` is `before` with `key` stored for `kind`.
    pub open spec fn stored(before: ApiKeys, kind: ProviderKind, key: Seq<char>, after: ApiKeys) -> bool {
        after@ == before@.insert(kind, key)
    }

    pub fn get(&self, kind: ProviderKind) -> (r: Option<&String>)
        ensures
            match r {
                Some(s) => self.key_of(kind) == Some(s@),
                None => self.key_of(kind) is None,
            },
    {
        match kind {
            ProviderKind::GoogleFree => self.google_free.as_ref(),
            ProviderKind::DeepL => self.deepl.as_ref(),
        }
    }

    /// Set the key of `kind`, replacing any earlier one.
    pub fn insert(&mut self, kind: ProviderKind, key: String)
        ensures
            ApiKeys::stored(*old(self), kind, key@, *final(self)),
    {
        let ghost k = key@;
        match kind {
            ProviderKind::GoogleFree => {
                self.google_free = Some(key);
            },
            ProviderKind::DeepL => {
                self.deepl = Some(key);
            },
        }
        assert(self@ =~= old(self)@.insert(kind, k));
    }

    /// The stored keys, Google's first.
    pub fn entries(&self) -> (r: Vec<(ProviderKind, String)>)
        ensures
            r@.map_values(|e: (ProviderKind, String)| (e.0, e.1@)) == key_entries(self@),
            forall|i: int| 0 <= i < r@.len() ==> self@.contains_key(#[trigger] r@[i].0) && self@[r@[i].0] == r@[i].1@,
            forall|k: ProviderKind| self@.contains_key(k) ==> exists|i: int| 0 <= i < r@.len() && #[trigger] r@[i].0 == k,
            r@.len() == self@.dom().len(),
    {
        let mut r: Vec<(ProviderKind, String)> = Vec::new();
        if let Some(k) = &self.google_free {
            r.push((ProviderKind::GoogleFree, k.clone()));
        }
        if let Some(k) = &self.deepl {
            r.push((ProviderKind::DeepL, k.clone()));
        }
        proof {
            assert(r@.map_values(|e: (ProviderKind, String)| (e.0, e.1@)) =~= key_entries(self@));
            let d = self@.dom();
            if self.google_free is Some && self.deepl is Some {
                assert(d =~= set![ProviderKind::GoogleFree, ProviderKind::DeepL]);
                assert(r@[0].0 == ProviderKind::GoogleFree);
                assert(r@[1].0 == ProviderKind::DeepL);
                assert forall|k: ProviderKind| self@.contains_key(k) implies exists|i: int| 0 <= i < r@.len() && #[trigger] r@[i].0 == k by {
                    match k {
                        ProviderKind::GoogleFree => assert(r@[0].0 == k),
                        ProviderKind::DeepL => assert(r@[1].0 == k),
                    }
                }
            } else if self.google_free is Some {
                assert(d =~= set![ProviderKind::GoogleFree]);
                assert(r@[0].0 == ProviderKind::GoogleFree);
            } else if self.deepl is Some {
                assert(d =~= set![ProviderKind::DeepL]);
                assert(r@[0].0 == ProviderKind::DeepL);
            } else {
                assert(d =~= Set::<ProviderKind>::empty());
            }
        }
        r
    }

    /// A copy with the same keys.
    pub fn copy(&self) -> (r: ApiKeys)
        ensures
            r@ == self@,
    {
        let r = ApiKeys { google_free: self.google_free.clone(), deepl: self.deepl.clone() };
        assert(r@ =~= self@);
        r
    }
}

#[derive(Debug)]
pub struct Config {
    pub hotkey: String,
    pub provider: ProviderKind,
    pub api_keys: ApiKeys,
    pub source_lang: Lang,
    pub target_lang: Lang,
    pub lang_preferences: Vec<Lang>,
    pub launch_at_startup: bool,
    pub theme: Theme,
    /// Hex accent color driving --accent-base in both windows.
    pub accent: String,
}

pub open spec fn strings_view(v: Seq<String>) -> Seq<Seq<char>> {
    v.map_values(|s: String| s@)
}

/// The configuration a fresh install starts from.
pub open spec fn is_default(c: Config) -> bool {
    &&& c.hotkey@ == "Ctrl+L"@
    &&& c.provider == ProviderKind::GoogleFree
    &&& c.api_keys@ == Map::<ProviderKind, Seq<char>>::empty()
    &&& c.source_lang@ == "auto"@
    &&& c.target_lang@ == "en"@
    &&& strings_view(c.lang_preferences@) == seq!["en"@, "he"@, "nl"@]
    &&& !c.launch_at_startup
    &&& c.theme == Theme::System
    &&& c.accent@ == "#4F46E5"@
}

impl Default for Config {
    fn default() -> (r: Self)
        ensures
            is_default(r),
    {
        let prefs: Vec<Lang> = vec![String::from_str("en"), String::from_str("he"), String::from_str("nl")];
        let r = Config {
            hotkey: String::from_str("Ctrl+L"),
            provider: ProviderKind::GoogleFree,
            api_keys: ApiKeys::new(),
            source_lang: String::from_str("auto"),
            target_lang: String::from_str("en"),
            lang_preferences: prefs,
            launch_at_startup: false,
            theme: Theme::System,
            accent: String::from_str("#4F46E5"),
        };
        assert(strings_view(r.lang_preferences@) =~= seq!["en"@, "he"@, "nl"@]);
        r
    }
}

fn copy_strings(v: &Vec<String>) -> (r: Vec<String>)
    ensures
        strings_view(r@) == strings_view(v@),
{
    let mut r: Vec<String> = Vec::new();
    let mut i: usize = 0;
    while i < v.len()
        invariant
            i <= v.len(),
            strings_view(r@) == strings_view(v@.take(i as int)),
        decreases v.len() - i,
    {
        let s = v[i].clone();
        assert(strings_view(r@.push(s)) =~= strings_view(r@).push(s@));
        assert(v@.take(i + 1) =~= v@.take(i as int).push(v@[i as int]));
        assert(strings_view(v@.take(i + 1)) =~= strings_view(v@.take(i as int)).push(v@[i as int]@));
        r.push(s);
        i = i + 1;
    }
    assert(v@.take(v.len() as int) =~= v@);
    r
}

/// Two configurations that hold the same values.
pub open spec fn same_config(a: Config, b: Config) -> bool {
    &&& a.hotkey@ == b.hotkey@
    &&& a.provider == b.provider
    &&& a.api_keys@ == b.api_keys@
    &&& a.source_lang@ == b.source_lang@
    &&& a.target_lang@ == b.target_lang@
    &&& strings_view(a.lang_preferences@) == strings_view(b.lang_preferences@)
    &&& a.launch_at_startup == b.launch_at_startup
    &&& a.theme == b.theme
    &&& a.accent@ == b.accent@
}

impl Config {
    /// A copy holding the same values.
    pub fn copy(&self) -> (r: Config)
        ensures
            same_config(r, *self),
    {
        Config {
            hotkey: self.hotkey.clone(),
            provider: self.provider,
            api_keys: self.api_keys.copy(),
            source_lang: self.source_lang.clone(),
            target_lang: self.target_lang.clone(),
            lang_preferences: copy_strings(&self.lang_preferences),
            launch_at_startup: self.launch_at_startup,
            theme: self.theme,
            accent: self.accent.clone(),
        }
    }

    /// The key stored for `kind`, or an empty one.
    pub fn api_key(&self, kind: ProviderKind) -> (r: String)
        ensures
            r@ == if self.api_keys@.contains_key(kind) {
                self.api_keys@[kind]
            } else {
                Seq::<char>::empty()
            },
    {
        match self.api_keys.get(kind) {
            Some(k) => k.clone(),
            None => String::new(),
        }
    }
}

#[derive(Debug)]
pub enum ConfigError {
    HotkeyInUse,
    InvalidHotkey(String),
    Invalid(String),
    Io(String),
}

/// A configuration error as plain values.
pub enum ConfigErrorView {
    HotkeyInUse,
    InvalidHotkey(Seq<char>),
    Invalid(Seq<char>),
    Io(Seq<char>),
}

impl View for ConfigError {
    type V = ConfigErrorView;

    open spec fn view(&self) -> ConfigErrorView {
        match self {
            ConfigError::HotkeyInUse => ConfigErrorView::HotkeyInUse,
            ConfigError::InvalidHotkey(s) => ConfigErrorView::InvalidHotkey(s@),
            ConfigError::Invalid(s) => ConfigErrorView::Invalid(s@),
            ConfigError::Io(s) => ConfigErrorView::Io(s@),
        }
    }
}

/// The text shown for an error.
pub open spec fn error_message(e: ConfigErrorView) -> Seq<char> {
    match e {
        ConfigErrorView::HotkeyInUse => "shortcut is already in use by another app"@,
        ConfigErrorView::InvalidHotkey(h) => "'"@ + h + "' is not a valid shortcut"@,
        ConfigErrorView::Invalid(m) => m,
        ConfigErrorView::Io(m) => m,
    }
}

impl ConfigError {
    /// Stable machine-readable kind for the frontend.
    pub fn kind(&self) -> (r: &'static str)
        ensures
            self is HotkeyInUse ==> r@ == "hotkey_in_use"@,
            self is InvalidHotkey ==> r@ == "invalid_hotkey"@,
            self is Invalid ==> r@ == "invalid_config"@,
            self is Io ==> r@ == "io"@,
    {
        match self {
            ConfigError::HotkeyInUse => "hotkey_in_use",
            ConfigError::InvalidHotkey(_) => "invalid_hotkey",
            ConfigError::Invalid(_) => "invalid_config",
            ConfigError::Io(_) => "io",
        }
    }

    /// The human-readable text of the error.
    pub fn message(&self) -> (r: String)
        ensures
            r@ == error_message(self@),
    {
        match self {
            ConfigError::HotkeyInUse => String::from_str("shortcut is already in use by another app"),
            ConfigError::InvalidHotkey(h) => {
                let mut m = String::from_str("'");
                m.append(h.as_str());
                m.append("' is not a valid shortcut");
                m
            },
            ConfigError::Invalid(m) => m.clone(),
            ConfigError::Io(m) => m.clone(),
        }
    }
}

pub open spec fn is_hex_digit(c: char) -> bool {
    ('0' <= c && c <= '9') || ('a' <= c && c <= 'f') || ('A' <= c && c <= 'F')
}

/// "#" followed by three or six hex digits. (The byte length of the digits
/// equals their character count, as they are ASCII.)
pub open spec fn hex_color(s: Seq<char>) -> bool {
    &&& s.len() >= 1
    &&& s[0] == '#'
    &&& (s.len() == 4 || s.len() == 7)
    &&& forall|i: int| 1 <= i < s.len() ==> is_hex_digit(#[trigger] s[i])
}

/// An accent is a hex color exactly when it is '#' followed by three or six
/// characters each of 0-9, a-f or A-F; so the verdict does not depend on the
/// case of the letters: lowering or raising them all keeps it.
pub proof fn law_hex_color(s: Seq<char>)
    ensures
        hex_color(s) <==> (s.len() == 4 || s.len() == 7) && s[0] == '#' && forall|i: int| 1 <= i < s.len() ==> {
            let c = #[trigger] s[i];
            ('0' <= c && c <= '9') || ('a' <= c && c <= 'f') || ('A' <= c && c <= 'F')
        },
        hex_color(ascii_lower(s)) == hex_color(s),
        hex_color(crate::text::ascii_upper(s)) == hex_color(s),
{
    let l = ascii_lower(s);
    let u = crate::text::ascii_upper(s);
    assert forall|i: int| 0 <= i < s.len() implies
        (is_hex_digit(#[trigger] l[i]) == is_hex_digit(s[i]))
        && (is_hex_digit(u[i]) == is_hex_digit(s[i]))
        && ((l[i] == '#') == (s[i] == '#'))
        && ((u[i] == '#') == (s[i] == '#')) by {
        let c = s[i];
        assert(l[i] == crate::text::lower(c));
        assert(u[i] == crate::text::upper(c));
    }
    if hex_color(l) != hex_color(s) {
        if hex_color(s) {
            assert forall|i: int| 1 <= i < l.len() implies is_hex_digit(#[trigger] l[i]) by {
                assert(is_hex_digit(s[i]));
            }
        } else {
            assert forall|i: int| 1 <= i < s.len() implies is_hex_digit(#[trigger] s[i]) by {
                assert(is_hex_digit(l[i]));
            }
        }
    }
    if hex_color(u) != hex_color(s) {
        if hex_color(s) {
            assert forall|i: int| 1 <= i < u.len() implies is_hex_digit(#[trigger] u[i]) by {
                assert(is_hex_digit(s[i]));
            }
        } else {
            assert forall|i: int| 1 <= i < s.len() implies is_hex_digit(#[trigger] s[i]) by {
                assert(is_hex_digit(u[i]));
            }
        }
    }
}

pub fn is_hex_color(s: &str) -> (r: bool)
    ensures
        r == hex_color(s@),
{
    let v = chars_of(s);
    if v.len() == 0 || v[0] != '#' {
        return false;
    }
    if v.len() != 4 && v.len() != 7 {
        return false;
    }
    let mut i: usize = 1;
    while i < v.len()
        invariant
            1 <= i <= v.len(),
            v@ == s@,
            forall|k: int| 1 <= k < i ==> is_hex_digit(#[trigger] v@[k]),
        decreases v.len() - i,
    {
        let c = v[i];
        if !(('0' <= c && c <= '9') || ('a' <= c && c <= 'f') || ('A' <= c && c <= 'F')) {
            assert(!is_hex_digit(v@[i as int]));
            return false;
        }
        i = i + 1;
    }
    true
}

/// Some preference code is blank.
pub open spec fn has_blank(prefs: Seq<Seq<char>>) -> bool {
    exists|i: int| 0 <= i < prefs.len() && trim(#[trigger] prefs[i]).len() == 0
}

/// Two preference codes are equal up to ASCII case.
pub open spec fn has_duplicate(prefs: Seq<Seq<char>>) -> bool {
    exists|i: int, j: int|
        0 <= i < j < prefs.len() && #[trigger] ascii_lower(prefs[i]) == #[trigger] ascii_lower(prefs[j])
}

/// The outcome of validating `c`: the first rule it breaks, in this order.
pub open spec fn validation(c: Config) -> Result<(), ConfigErrorView> {
    let prefs = strings_view(c.lang_preferences@);
    if !hotkey_accepted(c.hotkey@) {
        Err(ConfigErrorView::InvalidHotkey(c.hotkey@))
    } else if trim(c.target_lang@).len() == 0 {
        Err(ConfigErrorView::Invalid("target language is empty"@))
    } else if trim(c.source_lang@).len() == 0 {
        Err(ConfigErrorView::Invalid("source language is empty"@))
    } else if c.source_lang@ != auto_code() && normalized(c.source_lang@) == normalized(c.target_lang@) {
        Err(ConfigErrorView::Invalid("source and target languages are the same"@))
    } else if prefs.len() == 0 {
        Err(ConfigErrorView::Invalid("language preference list is empty"@))
    } else if has_blank(prefs) {
        Err(ConfigErrorView::Invalid("language preference list contains an empty code"@))
    } else if has_duplicate(prefs) {
        Err(ConfigErrorView::Invalid("language preference list contains duplicates"@))
    } else if !hex_color(c.accent@) {
        Err(ConfigErrorView::Invalid("'"@ + c.accent@ + "' is not a hex color"@))
    } else {
        Ok(())
    }
}

fn invalid(m: &str) -> (r: ConfigError)
    ensures
        r@ == ConfigErrorView::Invalid(m@),
{
    ConfigError::Invalid(String::from_str(m))
}

fn find_blank(prefs: &Vec<Lang>) -> (r: bool)
    ensures
        r == has_blank(strings_view(prefs@)),
{
    let ghost pv = strings_view(prefs@);
    let mut i: usize = 0;
    while i < prefs.len()
        invariant
            i <= prefs.len(),
            pv == strings_view(prefs@),
            forall|k: int| 0 <= k < i ==> trim(#[trigger] pv[k]).len() != 0,
        decreases prefs.len() - i,
    {
        if is_blank(prefs[i].as_str()) {
            assert(trim(pv[i as int]).len() == 0);
            return true;
        }
        i = i + 1;
    }
    false
}

fn find_duplicate(prefs: &Vec<Lang>) -> (r: bool)
    ensures
        r == has_duplicate(strings_view(prefs@)),
{
    let ghost pv = strings_view(prefs@);
    let mut lows: Vec<Vec<char>> = Vec::new();
    let mut i: usize = 0;
    while i < prefs.len()
        invariant
            i <= prefs.len(),
            pv == strings_view(prefs@),
            lows@.len() == i,
            forall|k: int| 0 <= k < i ==> (#[trigger] lows@[k])@ == ascii_lower(pv[k]),
            forall|a: int, b: int| 0 <= a < b < i ==> ascii_lower(pv[a]) != ascii_lower(pv[b]),
        decreases prefs.len() - i,
    {
        let v = chars_of(prefs[i].as_str());
        let low = lowered(&v);
        let mut j: usize = 0;
        while j < i
            invariant
                j <= i == lows@.len(),
                i < pv.len(),
                pv == strings_view(prefs@),
                low@ == ascii_lower(pv[i as int]),
                forall|k: int| 0 <= k < i ==> (#[trigger] lows@[k])@ == ascii_lower(pv[k]),
                forall|a: int| 0 <= a < j ==> ascii_lower(pv[a]) != ascii_lower(pv[i as int]),
            decreases i - j,
        {
            if same_chars(&lows[j], &low) {
                assert(ascii_lower(pv[j as int]) == ascii_lower(pv[i as int]));
                return true;
            }
            j = j + 1;
        }
        lows.push(low);
        i = i + 1;
    }
    false
}

/// Check a configuration against the rules in `validation`, reporting the
/// first one it breaks.
pub fn validate(config: &Config) -> (r: Result<(), ConfigError>)
    ensures
        r is Ok <==> validation(*config) is Ok,
        r matches Err(e) ==> validation(*config) == Err::<(), ConfigErrorView>(e@),
{
    if parse(config.hotkey.as_str()).is_err() {
        return Err(ConfigError::InvalidHotkey(config.hotkey.clone()));
    }
    if is_blank(config.target_lang.as_str()) {
        return Err(invalid("target language is empty"));
    }
    if is_blank(config.source_lang.as_str()) {
        return Err(invalid("source language is empty"));
    }
    if !is_auto(config.source_lang.as_str()) && langs_equal(
        config.source_lang.as_str(),
        config.target_lang.as_str(),
    ) {
        return Err(invalid("source and target languages are the same"));
    }
    if config.lang_preferences.len() == 0 {
        return Err(invalid("language preference list is empty"));
    }
    if find_blank(&config.lang_preferences) {
        return Err(invalid("language preference list contains an empty code"));
    }
    if find_duplicate(&config.lang_preferences) {
        return Err(invalid("language preference list contains duplicates"));
    }
    if !is_hex_color(config.accent.as_str()) {
        let mut m = String::from_str("'");
        m.append(config.accent.as_str());
        m.append("' is not a hex color");
        return Err(ConfigError::Invalid(m));
    }
    Ok(())
}

/// The defaults pass validation, given that their shortcut text parses.
pub proof fn law_defaults_valid(c: Config)
    requires
        is_default(c),
        hotkey_accepted(c.hotkey@),
    ensures
        validation(c) is Ok,
{
    reveal_strlit("en");
    reveal_strlit("he");
    reveal_strlit("nl");
    reveal_strlit("auto");
    reveal_strlit("#4F46E5");
    let prefs = strings_view(c.lang_preferences@);
    crate::text::lemma_trim_fixed("en"@);
    crate::text::lemma_trim_fixed("he"@);
    crate::text::lemma_trim_fixed("nl"@);
    crate::text::lemma_trim_fixed("auto"@);
    assert("auto"@ =~= auto_code());
    assert(prefs[0] == "en"@ && prefs[1] == "he"@ && prefs[2] == "nl"@);
    assert(!has_blank(prefs)) by {
        assert forall|i: int| 0 <= i < prefs.len() implies trim(#[trigger] prefs[i]).len() != 0 by {
            assert(i == 0 || i == 1 || i == 2);
        }
    }
    assert(!has_duplicate(prefs)) by {
        assert forall|i: int, j: int| 0 <= i < j < prefs.len() implies #[trigger] ascii_lower(prefs[i]) != #[trigger] ascii_lower(prefs[j]) by {
            assert(ascii_lower(prefs[i])[0] == prefs[i][0]);
            assert(ascii_lower(prefs[j])[0] == prefs[j][0]);
        }
    }
    assert(hex_color(c.accent@));
}

/// A key read back after it was stored is the key stored; other providers'
/// keys are untouched.
pub proof fn law_api_key_roundtrip(before: ApiKeys, after: ApiKeys, kind: ProviderKind, key: Seq<char>)
    requires
        ApiKeys::stored(before, kind, key, after),
    ensures
        after.key_of(kind) == Some(key),
        forall|other: ProviderKind| other != kind ==> #[trigger] after.key_of(other) == before.key_of(other),
{
}

/// A stored configuration that read and validates.
pub open spec fn usable(stored: Option<Config>) -> bool {
    match stored {
        Some(c) => validation(c) is Ok,
        None => false,
    }
}

/// The configuration to run with, given what the store held: the stored one
/// when it read and validates, else the defaults. Never fails: a broken
/// config file must not brick the app, and what it runs with always
/// validates.
pub fn choose_loaded(stored: Option<Config>) -> (r: Config)
    ensures
        usable(stored) ==> r == stored->0,
        !usable(stored) ==> is_default(r),
        validation(r) is Ok,
{
    if let Some(c) = stored {
        if validate(&c).is_ok() {
            return c;
        }
    }
    defaults_checked()
}

/// The defaults, together with the fact that they validate: their shortcut
/// is one the parser accepts.
fn defaults_checked() -> (r: Config)
    ensures
        is_default(r),
        validation(r) is Ok,
{
    let d = Config::default();
    let accepted = parse(d.hotkey.as_str());
    proof {
        assert(accepted is Ok);
        law_defaults_valid(d);
    }
    d
}

pub open spec fn has_member(fields: Seq<(String, Json)>, k: Seq<char>) -> bool {
    exists|i: int| 0 <= i < fields.len() && (#[trigger] fields[i]).0@ == k
}

/// `i` is the first position of a member named `k`.
pub open spec fn first_named(fields: Seq<(String, Json)>, k: Seq<char>, i: int) -> bool {
    &&& 0 <= i < fields.len()
    &&& fields[i].0@ == k
    &&& forall|h: int| 0 <= h < i ==> (#[trigger] fields[h]).0@ != k
}

/// `fields` with the (first) member named like `m` replaced by `m`.
pub open spec fn set_member(fields: Seq<(String, Json)>, m: (String, Json)) -> Seq<(String, Json)> {
    Seq::new(fields.len(), |i: int| if first_named(fields, m.0@, i) { m } else { fields[i] })
}

/// Patch members applied in order; the first one naming no existing field
/// stops the merge, and its name is reported.
pub open spec fn merge_members(fields: Seq<(String, Json)>, patch: Seq<(String, Json)>) -> Result<Seq<(String, Json)>, Seq<char>>
    decreases patch.len(),
{
    if patch.len() == 0 {
        Ok(fields)
    } else {
        match merge_members(fields, patch.drop_last()) {
            Err(k) => Err(k),
            Ok(f) => if has_member(f, patch.last().0@) {
                Ok(set_member(f, patch.last()))
            } else {
                Err(patch.last().0@)
            },
        }
    }
}

/// The error for a patch member that names no field.
pub open spec fn unknown_field(k: Seq<char>) -> ConfigErrorView {
    ConfigErrorView::Invalid("unknown config field '"@ + k + "'"@)
}

/// Shallow-merge a JSON patch onto the current config, both as JSON objects.
/// Top-level fields replace wholesale; a field the config does not have is
/// rejected.
pub fn merge_patch(current: Json, patch: Json) -> (r: Result<Json, ConfigError>)
    ensures
        !(current is Object && patch is Object) ==> (r matches Err(e) && e@ == ConfigErrorView::Invalid("patch must be an object"@)),
        current is Object && patch is Object ==> match merge_members(current->Object_0@, patch->Object_0@) {
            Ok(m) => r matches Ok(Json::Object(out)) && out@ == m,
            Err(k) => r matches Err(e) && e@ == unknown_field(k),
        },
{
    let ghost cur = current;
    let ghost pat = patch;
    let (mut fields, members) = match (current, patch) {
        (Json::Object(f), Json::Object(p)) => (f, p),
        _ => {
            return Err(invalid("patch must be an object"));
        },
    };
    let ghost f0 = fields@;
    let ghost p0 = members@;
    for m in it: members
        invariant
            it.seq() == p0,
            cur is Object && pat is Object,
            cur == current && pat == patch,
            cur->Object_0@ == f0,
            pat->Object_0@ == p0,
            merge_members(f0, it.seq().take(it.index() as int)) == Ok::<Seq<(String, Json)>, Seq<char>>(fields@),
    {
        assert(it.seq().take(it.index() + 1).drop_last() =~= it.seq().take(it.index() as int));
        assert(it.seq().take(it.index() + 1).last() == m);
        let mut j: usize = 0;
        let mut found = false;
        while j < fields.len()
            invariant_except_break
                !found,
            invariant
                j <= fields.len(),
                forall|k: int| 0 <= k < j ==> (#[trigger] fields@[k]).0@ != m.0@,
            ensures
                found ==> j < fields.len() && fields@[j as int].0@ == m.0@,
                !found ==> j == fields.len(),
            decreases fields.len() - j,
        {
            if fields[j].0 == m.0 {
                found = true;
                break;
            }
            j = j + 1;
        }
        if !found {
            assert(!has_member(fields@, m.0@));
            let mut e = String::from_str("unknown config field '");
            e.append(m.0.as_str());
            e.append("'");
            proof {
                lemma_merge_stops(f0, p0, it.index() as int);
            }
            return Err(ConfigError::Invalid(e));
        }
        proof {
            assert(has_member(fields@, m.0@)) by {
                assert(fields@[j as int].0@ == m.0@);
            }
        }
        let ghost before = fields@;
        fields.set(j, m);
        proof {
            assert(first_named(before, m.0@, j as int));
            assert(fields@ =~= set_member(before, m)) by {
                assert forall|k: int| 0 <= k < before.len() implies fields@[k] == set_member(before, m)[k] by {
                    if k > j {
                        assert(!first_named(before, m.0@, k)) by {
                            assert(before[j as int].0@ == m.0@);
                        }
                    }
                }
            }
        }
    }
    assert(p0.take(p0.len() as int) =~= p0);
    Ok(Json::Object(fields))
}

/// Once a member names no field, the merge of every longer prefix fails.
proof fn lemma_merge_stops(f0: Seq<(String, Json)>, p0: Seq<(String, Json)>, i: int)
    requires
        0 <= i < p0.len(),
        merge_members(f0, p0.take(i)) matches Ok(f) && !has_member(f, p0[i].0@),
    ensures
        merge_members(f0, p0) == Err::<Seq<(String, Json)>, Seq<char>>(p0[i].0@),
    decreases p0.len() - i,
{
    assert(p0.take(i + 1).drop_last() =~= p0.take(i));
    if i + 1 < p0.len() {
        lemma_merge_err_extends(f0, p0, i + 1);
    } else {
        assert(p0.take(i + 1) =~= p0);
    }
}

proof fn lemma_merge_err_extends(f0: Seq<(String, Json)>, p0: Seq<(String, Json)>, n: int)
    requires
        0 < n <= p0.len(),
        merge_members(f0, p0.take(n)) is Err,
    ensures
        merge_members(f0, p0) == merge_members(f0, p0.take(n)),
    decreases p0.len() - n,
{
    if n < p0.len() {
        assert(p0.take(n + 1).drop_last() =~= p0.take(n));
        lemma_merge_err_extends(f0, p0, n + 1);
    } else {
        assert(p0.take(n) =~= p0);
    }
}

/// Two member lists with the same names, position by position, have their
/// first members of each name at the same positions.
proof fn lemma_first_named_same_names(a: Seq<(String, Json)>, b: Seq<(String, Json)>, k: Seq<char>, i: int)
    requires
        a.len() == b.len(),
        forall|h: int| 0 <= h < a.len() ==> (#[trigger] a[h]).0@ == b[h].0@,
    ensures
        first_named(a, k, i) == first_named(b, k, i),
{
    if 0 <= i < a.len() {
        assert(a[i].0@ == b[i].0@);
        assert forall|h: int| 0 <= h < i implies (#[trigger] b[h]).0@ == a[h].0@ by {
            assert(a[h].0@ == b[h].0@);
        }
    }
}

/// One more patch member keeps every field's name and position, and the new
/// member names a field.
proof fn lemma_merge_step_names(
    fields: Seq<(String, Json)>,
    patch: Seq<(String, Json)>,
    f: Seq<(String, Json)>,
    m: Seq<(String, Json)>,
)
    requires
        patch.len() > 0,
        has_member(f, patch.last().0@),
        m == set_member(f, patch.last()),
        f.len() == fields.len(),
        forall|i: int| 0 <= i < fields.len() ==> (#[trigger] f[i]).0@ == fields[i].0@,
        forall|j: int| 0 <= j < patch.drop_last().len() ==> has_member(fields, (#[trigger] patch.drop_last()[j]).0@),
    ensures
        m.len() == fields.len(),
        forall|i: int| 0 <= i < fields.len() ==> (#[trigger] m[i]).0@ == fields[i].0@,
        forall|j: int| 0 <= j < patch.len() ==> has_member(fields, (#[trigger] patch[j]).0@),
{
    let n = patch.len() - 1;
    let p = patch.drop_last();
    assert forall|i: int| 0 <= i < fields.len() implies (#[trigger] m[i]).0@ == fields[i].0@ by {
        assert(f[i].0@ == fields[i].0@);
    }
    assert forall|j: int| 0 <= j < patch.len() implies has_member(fields, (#[trigger] patch[j]).0@) by {
        if j < n {
            assert(p[j] == patch[j]);
        } else {
            let i = choose|i: int| 0 <= i < f.len() && (#[trigger] f[i]).0@ == patch.last().0@;
            assert(f[i].0@ == fields[i].0@);
        }
    }
}

/// One more patch member leaves alone a field that no member names.
proof fn lemma_merge_step_unnamed(
    fields: Seq<(String, Json)>,
    patch: Seq<(String, Json)>,
    f: Seq<(String, Json)>,
    m: Seq<(String, Json)>,
    i: int,
)
    requires
        patch.len() > 0,
        m == set_member(f, patch.last()),
        f.len() == fields.len(),
        0 <= i < fields.len(),
        !has_member(patch, fields[i].0@),
        !has_member(patch.drop_last(), fields[i].0@) ==> f[i] == fields[i],
    ensures
        m[i] == fields[i],
{
    let p = patch.drop_last();
    assert(!has_member(p, fields[i].0@)) by {
        if has_member(p, fields[i].0@) {
            let h = choose|h: int| 0 <= h < p.len() && (#[trigger] p[h]).0@ == fields[i].0@;
            assert(patch[h] == p[h]);
        }
    }
    assert(patch[patch.len() - 1] == patch.last());
    assert(!first_named(f, patch.last().0@, i));
}

/// One more patch member leaves the first field of each name with the value
/// of the last member naming it.
proof fn lemma_merge_step_named(
    fields: Seq<(String, Json)>,
    patch: Seq<(String, Json)>,
    f: Seq<(String, Json)>,
    m: Seq<(String, Json)>,
    i: int,
    j: int,
)
    requires
        patch.len() > 0,
        m == set_member(f, patch.last()),
        f.len() == fields.len(),
        forall|h: int| 0 <= h < fields.len() ==> (#[trigger] f[h]).0@ == fields[h].0@,
        last_naming(patch, j),
        first_named(fields, patch[j].0@, i),
        last_naming(patch.drop_last(), j) && first_named(fields, patch.drop_last()[j].0@, i)
            ==> f[i] == patch.drop_last()[j],
    ensures
        m[i] == patch[j],
{
    let n = patch.len() - 1;
    let p = patch.drop_last();
    assert(patch[n] == patch.last());
    lemma_first_named_same_names(f, fields, patch[j].0@, i);
    if j < n {
        assert(p[j] == patch[j]);
        assert(last_naming(p, j)) by {
            assert forall|h: int| j < h < p.len() implies (#[trigger] p[h]).0@ != p[j].0@ by {
                assert(p[h] == patch[h]);
            }
        }
        assert(!first_named(f, patch.last().0@, i));
    }
}

/// `patch[j]` is the last patch member naming its field.
pub open spec fn last_naming(patch: Seq<(String, Json)>, j: int) -> bool {
    &&& 0 <= j < patch.len()
    &&& forall|h: int| j < h < patch.len() ==> (#[trigger] patch[h]).0@ != patch[j].0@
}

/// A successful merge keeps the config's fields, in order, and every patch
/// member names one of them. A field that no patch member names keeps its
/// value; a field that is named takes, wholesale, the value of the last patch
/// member naming it.
pub proof fn law_merge_shape(fields: Seq<(String, Json)>, patch: Seq<(String, Json)>)
    requires
        merge_members(fields, patch) is Ok,
    ensures
        merge_members(fields, patch)->Ok_0.len() == fields.len(),
        forall|i: int| 0 <= i < fields.len() ==> (#[trigger] merge_members(fields, patch)->Ok_0[i]).0@ == fields[i].0@,
        forall|j: int| 0 <= j < patch.len() ==> has_member(fields, (#[trigger] patch[j]).0@),
        forall|i: int| 0 <= i < fields.len() && !has_member(patch, fields[i].0@)
            ==> #[trigger] merge_members(fields, patch)->Ok_0[i] == fields[i],
        forall|i: int, j: int| last_naming(patch, j) && first_named(fields, patch[j].0@, i)
            ==> #[trigger] merge_members(fields, patch)->Ok_0[i] == #[trigger] patch[j],
    decreases patch.len(),
{
    if patch.len() > 0 {
        let p = patch.drop_last();
        law_merge_shape(fields, p);
        let f = merge_members(fields, p)->Ok_0;
        let m = merge_members(fields, patch)->Ok_0;
        lemma_merge_step_names(fields, patch, f, m);
        assert forall|i: int| 0 <= i < fields.len() && !has_member(patch, fields[i].0@)
            implies #[trigger] m[i] == fields[i] by {
            lemma_merge_step_unnamed(fields, patch, f, m, i);
        }
        assert forall|i: int, j: int| last_naming(patch, j) && first_named(fields, patch[j].0@, i)
            implies #[trigger] m[i] == #[trigger] patch[j] by {
            lemma_merge_step_named(fields, patch, f, m, i, j);
        }
    }
}

/// What an accepted update has to change besides the stored config.
#[derive(Debug, Clone, Copy)]
pub struct UpdatePlan {
    /// The shortcut changed: register the new one before dropping the old.
    pub remap_hotkey: bool,
    /// Turn launch-at-startup on or off.
    pub autostart: Option<bool>,
    /// Apply a new window theme.
    pub theme: Option<Theme>,
}

/// Side effects of moving from `old` to `new`: only what changed.
pub fn plan_update(old: &Config, new: &Config) -> (r: UpdatePlan)
    ensures
        r.remap_hotkey == (new.hotkey@ != old.hotkey@),
        r.autostart == if new.launch_at_startup != old.launch_at_startup {
            Some(new.launch_at_startup)
        } else {
            None::<bool>
        },
        r.theme == if new.theme != old.theme {
            Some(new.theme)
        } else {
            None::<Theme>
        },
{
    let remap_hotkey = new.hotkey != old.hotkey;
    let autostart = if new.launch_at_startup != old.launch_at_startup {
        Some(new.launch_at_startup)
    } else {
        None
    };
    let theme = if new.theme != old.theme {
        Some(new.theme)
    } else {
        None
    };
    UpdatePlan { remap_hotkey, autostart, theme }
}

/// The shortcut to register for `hotkey`, or `InvalidHotkey` naming the text
/// when it does not parse.
pub fn binding_for(hotkey: &str) -> (r: Result<HotKey, ConfigError>)
    ensures
        r is Ok <==> hotkey_accepted(hotkey@),
        r matches Ok(k) ==> (!names_platform_modifier(hotkey@) ==> k == hotkey_of(hotkey@)),
        r matches Err(e) ==> e@ == ConfigErrorView::InvalidHotkey(hotkey@),
{
    match parse(hotkey) {
        Ok(k) => Ok(k),
        Err(_) => Err(ConfigError::InvalidHotkey(crate::text::to_owned(hotkey))),
    }
}

/// What the shortcut registry's answer means: a refused shortcut is taken
/// by another app.
pub fn registration_result(registered: bool) -> (r: Result<(), ConfigError>)
    ensures
        registered ==> r is Ok,
        !registered ==> (r matches Err(e) && e@ == ConfigErrorView::HotkeyInUse),
{
    if registered {
        Ok(())
    } else {
        Err(ConfigError::HotkeyInUse)
    }
}

/// One piece of outside work in applying an accepted update.
#[derive(Debug, Clone, Copy, PartialEq, Eq, Structural)]
pub enum UpdateStep {
    /// Register the new shortcut.
    RegisterHotkey,
    /// Drop the old shortcut.
    ReleaseOldHotkey,
    /// Turn launch-at-startup on or off.
    SetAutostart(bool),
    /// Apply a window theme.
    ApplyTheme(Theme),
    /// Write the new config to the store.
    Persist,
    /// Make the new config current and announce it.
    Commit,
}

/// The steps of an update, in the order they run.
pub open spec fn steps_of(plan: UpdatePlan) -> Seq<UpdateStep> {
    let hotkey = if plan.remap_hotkey {
        seq![UpdateStep::RegisterHotkey, UpdateStep::ReleaseOldHotkey]
    } else {
        seq![]
    };
    let autostart = match plan.autostart {
        Some(on) => seq![UpdateStep::SetAutostart(on)],
        None => seq![],
    };
    let theme = match plan.theme {
        Some(t) => seq![UpdateStep::ApplyTheme(t)],
        None => seq![],
    };
    hotkey + autostart + theme + seq![UpdateStep::Persist, UpdateStep::Commit]
}

/// Whether a failed step ends the update with its error. Registering the new
/// shortcut and persisting do; the rest are logged and the update goes on.
pub open spec fn aborts(step: UpdateStep) -> bool {
    step == UpdateStep::RegisterHotkey || step == UpdateStep::Persist
}

/// The steps that apply `plan`, in order: the shortcut swap first (new one
/// registered before the old one is dropped), then autostart, then the theme,
/// and last persisting and committing.
pub fn update_steps(plan: &UpdatePlan) -> (r: Vec<UpdateStep>)
    ensures
        r@ == steps_of(*plan),
{
    let mut r: Vec<UpdateStep> = Vec::new();
    if plan.remap_hotkey {
        r.push(UpdateStep::RegisterHotkey);
        r.push(UpdateStep::ReleaseOldHotkey);
    }
    if let Some(on) = plan.autostart {
        r.push(UpdateStep::SetAutostart(on));
    }
    if let Some(t) = plan.theme {
        r.push(UpdateStep::ApplyTheme(t));
    }
    r.push(UpdateStep::Persist);
    r.push(UpdateStep::Commit);
    assert(r@ =~= steps_of(*plan));
    r
}

/// Whether a failure of `step` aborts the update.
pub fn step_aborts(step: UpdateStep) -> (r: bool)
    ensures
        r == aborts(step),
{
    match step {
        UpdateStep::RegisterHotkey | UpdateStep::Persist => true,
        _ => false,
    }
}

/// The order of an update: when the shortcut changes, registering the new one
/// is the very first step, so its failure aborts before any other side effect,
/// and the old one is dropped only right after; the config is persisted and
/// committed last, the commit after everything that can abort.
pub proof fn law_update_order(plan: UpdatePlan)
    ensures
        plan.remap_hotkey ==> steps_of(plan)[0] == UpdateStep::RegisterHotkey
            && steps_of(plan)[1] == UpdateStep::ReleaseOldHotkey,
        !plan.remap_hotkey ==> !steps_of(plan).contains(UpdateStep::RegisterHotkey)
            && !steps_of(plan).contains(UpdateStep::ReleaseOldHotkey),
        steps_of(plan).last() == UpdateStep::Commit,
        steps_of(plan)[steps_of(plan).len() - 2] == UpdateStep::Persist,
        forall|i: int| 0 <= i < steps_of(plan).len() - 1 && aborts(#[trigger] steps_of(plan)[i])
            ==> i == 0 || i == steps_of(plan).len() - 2,
        forall|i: int| 0 < i < steps_of(plan).len() ==> #[trigger] steps_of(plan)[i] != UpdateStep::RegisterHotkey,
{
    let s = steps_of(plan);
    if !plan.remap_hotkey {
        assert(!s.contains(UpdateStep::RegisterHotkey)) by {
            if s.contains(UpdateStep::RegisterHotkey) {
                let i = choose|i: int| 0 <= i < s.len() && s[i] == UpdateStep::RegisterHotkey;
            }
        }
        assert(!s.contains(UpdateStep::ReleaseOldHotkey)) by {
            if s.contains(UpdateStep::ReleaseOldHotkey) {
                let i = choose|i: int| 0 <= i < s.len() && s[i] == UpdateStep::ReleaseOldHotkey;
            }
        }
    }
}

/// A window theme forced on the app's windows.
#[derive(Debug, Clone, Copy, PartialEq, Eq, Structural)]
pub enum WindowTheme {
    Light,
    Dark,
}

/// The theme to force on windows: none for `System`, which follows the OS.
pub fn theme_override(theme: Theme) -> (r: Option<WindowTheme>)
    ensures
        theme == Theme::System ==> r is None,
        theme == Theme::Light ==> r == Some(WindowTheme::Light),
        theme == Theme::Dark ==> r == Some(WindowTheme::Dark),
{
    match theme {
        Theme::System => None,
        Theme::Light => Some(WindowTheme::Light),
        Theme::Dark => Some(WindowTheme::Dark),
    }
}

} // verus!
