//! Shared data types, the provider error, and language-code normalization.

use vstd::prelude::*;
use crate::text::{
    trim, ascii_lower, trimmed, lowered, string_from, is_ws, lemma_lower_trim_fixed,
    lemma_trim_fixed,
};

verus! {

/// A language code such as "en", or "auto" for detection.
pub type Lang = String;

#[derive(Debug, Clone, Copy, PartialEq, Eq, Hash, Structural)]
pub enum ProviderKind {
    GoogleFree,
    DeepL,
}

#[derive(Debug, Clone, Copy, PartialEq, Eq, Hash, Structural)]
pub enum Theme {
    System,
    Light,
    Dark,
}

/// A dictionary term with its relative frequency.
#[derive(Debug, Clone, PartialEq, Eq)]
pub struct ScoredTerm {
    pub term: String,
    /// Relative frequency in billionths (0..=1_000_000_000 for 0..1); 0 when
    /// the provider gave no score.
    pub score: i64,
}

#[derive(Debug, Clone, PartialEq, Eq)]
pub struct DictEntry {
    pub pos: String,
    pub terms: Vec<ScoredTerm>,
}

#[derive(Debug, Clone, PartialEq, Eq)]
pub struct Definition {
    pub pos: String,
    pub text: String,
}

#[derive(Debug, Clone)]
pub struct Translation {
    pub request_id: u64,
    pub primary: String,
    pub alternatives: Vec<DictEntry>,
    pub definitions: Vec<Definition>,
    pub detected_lang: Option<Lang>,
}

#[derive(Debug, Clone)]
pub struct TranslateRequest {
    pub request_id: u64,
    pub text: String,
    /// "auto" or a language code.
    pub src: Lang,
    pub tgt: Lang,
    /// When false, providers may skip dictionary work entirely.
    pub want_dictionary: bool,
}

/// A term as plain values: its text and its score.
pub struct TermView {
    pub term: Seq<char>,
    pub score: i64,
}

/// A dictionary group as plain values.
pub struct EntryView {
    pub pos: Seq<char>,
    pub terms: Seq<TermView>,
}

/// A definition as plain values.
pub struct DefinitionView {
    pub pos: Seq<char>,
    pub text: Seq<char>,
}

impl View for ScoredTerm {
    type V = TermView;

    open spec fn view(&self) -> TermView {
        TermView { term: self.term@, score: self.score }
    }
}

pub open spec fn terms_view(terms: Seq<ScoredTerm>) -> Seq<TermView> {
    terms.map_values(|t: ScoredTerm| t@)
}

impl View for DictEntry {
    type V = EntryView;

    open spec fn view(&self) -> EntryView {
        EntryView { pos: self.pos@, terms: terms_view(self.terms@) }
    }
}

pub open spec fn entries_view(entries: Seq<DictEntry>) -> Seq<EntryView> {
    entries.map_values(|e: DictEntry| e@)
}

impl View for Definition {
    type V = DefinitionView;

    open spec fn view(&self) -> DefinitionView {
        DefinitionView { pos: self.pos@, text: self.text@ }
    }
}

pub open spec fn definitions_view(defs: Seq<Definition>) -> Seq<DefinitionView> {
    defs.map_values(|d: Definition| d@)
}

/// A translation as plain values.
pub struct TranslationView {
    pub request_id: u64,
    pub primary: Seq<char>,
    pub alternatives: Seq<EntryView>,
    pub definitions: Seq<DefinitionView>,
    pub detected_lang: Option<Seq<char>>,
}

impl View for Translation {
    type V = TranslationView;

    open spec fn view(&self) -> TranslationView {
        TranslationView {
            request_id: self.request_id,
            primary: self.primary@,
            alternatives: entries_view(self.alternatives@),
            definitions: definitions_view(self.definitions@),
            detected_lang: opt_view(self.detected_lang),
        }
    }
}

pub open spec fn opt_view(o: Option<String>) -> Option<Seq<char>> {
    match o {
        Some(s) => Some(s@),
        None => None,
    }
}

#[derive(Debug, Clone)]
pub enum ProviderError {
    Network(String),
    RateLimited,
    AuthFailed,
}

/// A provider error as plain values.
pub enum ProviderErrorView {
    Network(Seq<char>),
    RateLimited,
    AuthFailed,
}

impl View for ProviderError {
    type V = ProviderErrorView;

    open spec fn view(&self) -> ProviderErrorView {
        match self {
            ProviderError::Network(m) => ProviderErrorView::Network(m@),
            ProviderError::RateLimited => ProviderErrorView::RateLimited,
            ProviderError::AuthFailed => ProviderErrorView::AuthFailed,
        }
    }
}

/// A translation result as values.
pub open spec fn outcome_view(r: Result<Translation, ProviderError>) -> Result<TranslationView, ProviderErrorView> {
    match r {
        Ok(t) => Ok(t@),
        Err(e) => Err(e@),
    }
}

pub open spec fn opt_error_view(e: Option<ProviderError>) -> Option<ProviderErrorView> {
    match e {
        Some(x) => Some(x@),
        None => None,
    }
}

/// Network trouble and rate limits are worth retrying; a rejected key is not.
pub open spec fn retryable_view(e: ProviderErrorView) -> bool {
    !(e is AuthFailed)
}

impl ProviderError {
    /// Network trouble and rate limits are worth retrying; a rejected key is not.
    pub fn retryable(&self) -> (r: bool)
        ensures
            r == retryable_view(self@),
    {
        match self {
            ProviderError::Network(_) => true,
            ProviderError::RateLimited => true,
            ProviderError::AuthFailed => false,
        }
    }

    /// Stable machine-readable kind for the frontend.
    pub fn kind(&self) -> (r: &'static str)
        ensures
            self is Network ==> r@ == "network"@,
            self is RateLimited ==> r@ == "rate_limited"@,
            self is AuthFailed ==> r@ == "auth_failed"@,
    {
        match self {
            ProviderError::Network(_) => "network",
            ProviderError::RateLimited => "rate_limited",
            ProviderError::AuthFailed => "auth_failed",
        }
    }

    /// Short human message rendered in the popup.
    pub fn user_message(&self) -> (r: String)
        ensures
            self is Network ==> r@ == "Couldn't reach translator"@,
            self is RateLimited ==> r@ == "Rate limited, try again in a moment"@,
            self is AuthFailed ==> r@ == "API key was rejected"@,
    {
        match self {
            ProviderError::Network(_) => String::from_str("Couldn't reach translator"),
            ProviderError::RateLimited => String::from_str("Rate limited, try again in a moment"),
            ProviderError::AuthFailed => String::from_str("API key was rejected"),
        }
    }
}

/// Canonical form of a language code: trimmed, ASCII-lowercased, with the
/// legacy ISO codes "iw", "ji" and "in" replaced by "he", "yi" and "id".
pub open spec fn normalized(code: Seq<char>) -> Seq<char> {
    let lower = ascii_lower(trim(code));
    if lower == seq!['i', 'w'] {
        seq!['h', 'e']
    } else if lower == seq!['j', 'i'] {
        seq!['y', 'i']
    } else if lower == seq!['i', 'n'] {
        seq!['i', 'd']
    } else {
        lower
    }
}

fn is_pair(v: &Vec<char>, a: char, b: char) -> (r: bool)
    ensures
        r == (v@ == seq![a, b]),
{
    let r = v.len() == 2 && v[0] == a && v[1] == b;
    proof {
        if r {
            assert(v@ =~= seq![a, b]);
        }
    }
    r
}

fn pair(a: char, b: char) -> (r: String)
    ensures
        r@ == seq![a, b],
{
    let mut v: Vec<char> = Vec::new();
    v.push(a);
    v.push(b);
    assert(v@ =~= seq![a, b]);
    string_from(&v, 0, 2)
}

/// Normalize a provider-reported language code to the canonical form used in
/// config. Google still reports legacy ISO codes for a few languages.
pub fn normalize_lang(code: &str) -> (r: String)
    ensures
        r@ == normalized(code@),
{
    let t = trimmed(code);
    let lower = lowered(&t);
    if is_pair(&lower, 'i', 'w') {
        pair('h', 'e')
    } else if is_pair(&lower, 'j', 'i') {
        pair('y', 'i')
    } else if is_pair(&lower, 'i', 'n') {
        pair('i', 'd')
    } else {
        let n = lower.len();
        let r = string_from(&lower, 0, n);
        assert(lower@.subrange(0, n as int) =~= lower@);
        r
    }
}

/// Normalizing twice gives what normalizing once gives.
pub proof fn law_normalize_idempotent(code: Seq<char>)
    ensures
        normalized(normalized(code)) == normalized(code),
{
    let l = ascii_lower(trim(code));
    lemma_lower_trim_fixed(code);
    if l == seq!['i', 'w'] || l == seq!['j', 'i'] || l == seq!['i', 'n'] {
        let n = normalized(code);
        assert(n.len() == 2 && !is_ws(n[0]) && !is_ws(n[1]));
        lemma_trim_fixed(n);
        assert(ascii_lower(n) =~= n);
    }
}

/// Language equality is an equivalence: reflexive, symmetric, transitive.
pub proof fn law_langs_equal_equivalence(a: Seq<char>, b: Seq<char>, c: Seq<char>)
    ensures
        normalized(a) == normalized(a),
        normalized(a) == normalized(b) ==> normalized(b) == normalized(a),
        normalized(a) == normalized(b) && normalized(b) == normalized(c) ==> normalized(a) == normalized(c),
{
}

pub fn langs_equal(a: &str, b: &str) -> (r: bool)
    ensures
        r == (normalized(a@) == normalized(b@)),
{
    let na = normalize_lang(a);
    let nb = normalize_lang(b);
    na == nb
}

} // verus!
