//! DeepL REST API (official, bring your own key): endpoint choice, request
//! fields, status mapping and reading the reply. No dictionary data.

use vstd::prelude::*;
use crate::types::{
    normalize_lang, normalized, opt_view, opt_error_view, retryable_view, ProviderError,
    ProviderErrorView, TranslateRequest,
    Translation, TranslationView, outcome_view,
};
use crate::text::{
    ascii_upper, trim, chars_of, uppered, string_from, is_blank, is_auto, auto_code, decimal,
    decimal_string,
};

verus! {

pub open spec fn free_endpoint() -> Seq<char> {
    "https://api-free.deepl.com/v2/translate"@
}

pub open spec fn pro_endpoint() -> Seq<char> {
    "https://api.deepl.com/v2/translate"@
}

/// Free-tier keys are suffixed ":fx".
pub open spec fn is_free_key(key: Seq<char>) -> bool {
    key.len() >= 3 && key.subrange(key.len() - 3, key.len() as int) == seq![':', 'f', 'x']
}

/// The endpoint for a key: the free one for free-tier keys, else the pro one.
pub fn endpoint(api_key: &str) -> (r: &'static str)
    ensures
        r@ == if is_free_key(api_key@) {
            free_endpoint()
        } else {
            pro_endpoint()
        },
{
    let v = chars_of(api_key);
    let n = v.len();
    let free = n >= 3 && v[n - 3] == ':' && v[n - 2] == 'f' && v[n - 1] == 'x';
    proof {
        if n >= 3 {
            if free {
                assert(v@.subrange(n - 3, n as int) =~= seq![':', 'f', 'x']);
            } else {
                let s = v@.subrange(n - 3, n as int);
                assert(s[0] == v@[n - 3] && s[1] == v@[n - 2] && s[2] == v@[n - 1]);
                assert(s != seq![':', 'f', 'x']) by {
                    if s == seq![':', 'f', 'x'] {
                        assert(s[0] == ':' && s[1] == 'f' && s[2] == 'x');
                    }
                }
            }
        }
    }
    if free {
        "https://api-free.deepl.com/v2/translate"
    } else {
        "https://api.deepl.com/v2/translate"
    }
}

/// The characters of `s` before its first '-'.
pub open spec fn primary_subtag(s: Seq<char>) -> Seq<char>
    decreases s.len(),
{
    if s.len() == 0 || s[0] == '-' {
        seq![]
    } else {
        seq![s[0]] + primary_subtag(s.drop_first())
    }
}

/// DeepL wants uppercase codes; regional variants keep their primary subtag
/// except Chinese, which DeepL only accepts as "ZH".
pub open spec fn deepl_lang(code: Seq<char>) -> Seq<char> {
    let primary = primary_subtag(normalized(code));
    if primary == seq!['z', 'h'] {
        seq!['Z', 'H']
    } else {
        ascii_upper(primary)
    }
}

proof fn lemma_primary_subtag(s: Seq<char>, i: int)
    requires
        0 <= i <= s.len(),
        forall|k: int| 0 <= k < i ==> s[k] != '-',
        i == s.len() || s[i] == '-',
    ensures
        primary_subtag(s) == s.take(i),
    decreases s.len(),
{
    if s.len() > 0 && s[0] != '-' {
        assert(i > 0);
        lemma_primary_subtag(s.drop_first(), i - 1);
        assert(seq![s[0]] + s.drop_first().take(i - 1) =~= s.take(i));
    } else {
        assert(s.take(i) =~= seq![]);
    }
}

/// Codes that name the same language get the same DeepL code, and a code's
/// normalization gets the code's own DeepL code.
pub proof fn law_deepl_lang_follows_language(a: Seq<char>, b: Seq<char>)
    ensures
        normalized(a) == normalized(b) ==> deepl_lang(a) == deepl_lang(b),
        deepl_lang(normalized(a)) == deepl_lang(a),
{
    crate::types::law_normalize_idempotent(a);
}

pub fn to_deepl_lang(code: &str) -> (r: String)
    ensures
        r@ == deepl_lang(code@),
{
    let normalized = normalize_lang(code);
    let v = chars_of(normalized.as_str());
    let mut i: usize = 0;
    while i < v.len() && v[i] != '-'
        invariant
            i <= v.len(),
            forall|k: int| 0 <= k < i ==> v@[k] != '-',
        decreases v.len() - i,
    {
        i = i + 1;
    }
    proof {
        lemma_primary_subtag(v@, i as int);
        assert(v@.take(i as int) =~= v@.subrange(0, i as int));
    }
    if i == 2 && v[0] == 'z' && v[1] == 'h' {
        assert(v@.subrange(0, 2) =~= seq!['z', 'h']);
        let mut out: Vec<char> = Vec::new();
        out.push('Z');
        out.push('H');
        assert(out@ =~= seq!['Z', 'H']);
        return string_from(&out, 0, 2);
    }
    proof {
        if i == 2 {
            let p = v@.subrange(0, 2);
            assert(p[0] == v@[0] && p[1] == v@[1]);
            if p == seq!['z', 'h'] {
                assert(p[0] == 'z' && p[1] == 'h');
            }
        } else {
            assert(v@.subrange(0, i as int).len() != 2);
        }
    }
    let primary = string_from(&v, 0, i);
    let pv = chars_of(primary.as_str());
    let up = uppered(&pv);
    string_from(&up, 0, up.len())
}

/// What a DeepL status means: nothing for 200..=299; 401 and 403 are a
/// rejected key; 429 and 456 (quota exceeded) a rate limit; anything else a
/// network-class failure carrying "http " and the code.
pub open spec fn deepl_status(status: u16) -> Option<ProviderErrorView> {
    if 200 <= status <= 299 {
        None
    } else if status == 401 || status == 403 {
        Some(ProviderErrorView::AuthFailed)
    } else if status == 429 || status == 456 {
        Some(ProviderErrorView::RateLimited)
    } else {
        Some(ProviderErrorView::Network("http "@ + decimal(status as nat)))
    }
}

/// 403 (and 401) map to AuthFailed, 456 is DeepL's quota-exceeded code, 429 is
/// plain rate limiting. Anything else non-2xx is a network-class failure.
pub fn map_status(status: u16) -> (r: Option<ProviderError>)
    ensures
        opt_error_view(r) == deepl_status(status),
{
    if 200 <= status && status <= 299 {
        None
    } else if status == 401 || status == 403 {
        Some(ProviderError::AuthFailed)
    } else if status == 429 || status == 456 {
        Some(ProviderError::RateLimited)
    } else {
        let mut m = String::from_str("http ");
        let code = decimal_string(status as u64);
        m.append(code.as_str());
        Some(ProviderError::Network(m))
    }
}

/// Every status outside 200..=299 is an error, and it is worth retrying
/// unless the key was rejected (401, 403).
pub proof fn law_status_retryable(status: u16)
    requires
        !(200 <= status <= 299),
    ensures
        deepl_status(status) is Some,
        retryable_view(deepl_status(status)->0) == (status != 401 && status != 403),
{
}

/// One entry of DeepL's `translations` list.
#[derive(Debug, Clone)]
pub struct DeepLEntry {
    pub detected_source_language: Option<String>,
    pub text: String,
}

/// The translation a non-empty list of entries stands for: the first entry.
pub open spec fn deepl_translation(first: DeepLEntry, request_id: u64) -> TranslationView {
    TranslationView {
        request_id: request_id,
        primary: first.text@,
        alternatives: seq![],
        definitions: seq![],
        detected_lang: match first.detected_source_language {
            Some(c) => Some(normalized(c@)),
            None => None,
        },
    }
}

/// Read DeepL's reply, given its `translations` list (`None` when the body
/// did not have the documented shape).
pub fn parse_response(parsed: Option<Vec<DeepLEntry>>, request_id: u64) -> (r: Result<Translation, ProviderError>)
    ensures
        parsed is None ==> (r matches Err(e) && e@ == ProviderErrorView::Network("unexpected response from translator"@)),
        parsed matches Some(v) ==> (v@.len() == 0 ==> (r matches Err(e) && e@ == ProviderErrorView::Network("empty translations list"@))),
        parsed matches Some(v) ==> (v@.len() > 0 ==> (r matches Ok(t) && t@ == deepl_translation(v@[0], request_id))),
{
    let entries = match parsed {
        Some(v) => v,
        None => {
            return Err(ProviderError::Network(String::from_str("unexpected response from translator")));
        },
    };
    if entries.len() == 0 {
        return Err(ProviderError::Network(String::from_str("empty translations list")));
    }
    let first = &entries[0];
    let detected_lang = match &first.detected_source_language {
        Some(c) => Some(normalize_lang(c.as_str())),
        None => None,
    };
    let t = Translation {
        request_id,
        primary: first.text.clone(),
        alternatives: Vec::new(),
        definitions: Vec::new(),
        detected_lang,
    };
    assert(crate::types::entries_view(t.alternatives@) =~= seq![]);
    assert(crate::types::definitions_view(t.definitions@) =~= seq![]);
    Ok(t)
}

/// What a reply's `translations` list (`None` when the body did not have
/// the documented shape) gives.
pub open spec fn deepl_reply(parsed: Option<Vec<DeepLEntry>>, request_id: u64) -> Result<TranslationView, ProviderErrorView> {
    match parsed {
        None => Err(ProviderErrorView::Network("unexpected response from translator"@)),
        Some(v) => if v@.len() == 0 {
            Err(ProviderErrorView::Network("empty translations list"@))
        } else {
            Ok(deepl_translation(v@[0], request_id))
        },
    }
}

/// The outcome of a DeepL reply with status `status`: the status's error if
/// it has one; else the error of reading the body, if that failed; else what
/// the body reads as.
pub fn finish_deepl(status: u16, body: Result<Option<Vec<DeepLEntry>>, ProviderError>, request_id: u64) -> (r: Result<Translation, ProviderError>)
    ensures
        outcome_view(r) == match deepl_status(status) {
            Some(e) => Err(e),
            None => match body {
                Err(e) => Err(e@),
                Ok(parsed) => deepl_reply(parsed, request_id),
            },
        },
{
    if let Some(e) = map_status(status) {
        return Err(e);
    }
    match body {
        Err(e) => Err(e),
        Ok(parsed) => parse_response(parsed, request_id),
    }
}

/// What to send to DeepL for one request.
#[derive(Debug, Clone)]
pub struct DeepLCall {
    pub endpoint: &'static str,
    /// The `Authorization` header's value.
    pub authorization: String,
    pub text: String,
    pub target_lang: String,
    /// Absent when the source is detected ("auto").
    pub source_lang: Option<String>,
}

/// Plan a DeepL request: a blank key is rejected before any network work;
/// otherwise the endpoint follows the key's tier, the key goes into the
/// `DeepL-Auth-Key` header, and the languages are sent in DeepL's form, the
/// source only when it is not "auto".
pub fn plan_request(api_key: &str, req: &TranslateRequest) -> (r: Result<DeepLCall, ProviderError>)
    ensures
        trim(api_key@).len() == 0 ==> (r matches Err(e) && e@ == ProviderErrorView::AuthFailed),
        trim(api_key@).len() > 0 ==> (r matches Ok(c) && {
            &&& c.endpoint@ == if is_free_key(api_key@) { free_endpoint() } else { pro_endpoint() }
            &&& c.authorization@ == "DeepL-Auth-Key "@ + api_key@
            &&& c.text@ == req.text@
            &&& c.target_lang@ == deepl_lang(req.tgt@)
            &&& opt_view(c.source_lang) == if req.src@ == auto_code() { None } else { Some(deepl_lang(req.src@)) }
        }),
{
    if is_blank(api_key) {
        return Err(ProviderError::AuthFailed);
    }
    let mut authorization = String::from_str("DeepL-Auth-Key ");
    authorization.append(api_key);
    let source_lang = if is_auto(req.src.as_str()) {
        None
    } else {
        Some(to_deepl_lang(req.src.as_str()))
    };
    Ok(DeepLCall {
        endpoint: endpoint(api_key),
        authorization,
        text: req.text.clone(),
        target_lang: to_deepl_lang(req.tgt.as_str()),
        source_lang,
    })
}

/// Language codes DeepL accepts as targets.
pub open spec fn deepl_langs() -> Seq<Seq<char>> {
    seq![
        "ar"@, "bg"@, "cs"@, "da"@, "de"@, "el"@, "en"@, "es"@, "et"@, "fi"@, "fr"@, "he"@,
        "hu"@, "id"@, "it"@, "ja"@, "ko"@, "lt"@, "lv"@, "nb"@, "nl"@, "pl"@, "pt"@, "ro"@,
        "ru"@, "sk"@, "sl"@, "sv"@, "th"@, "tr"@, "uk"@, "vi"@, "zh-CN"@
    ]
}

pub fn supported_langs() -> (r: Vec<&'static str>)
    ensures
        r@.map_values(|s: &str| s@) == deepl_langs(),
{
    let r: Vec<&'static str> = vec![
        "ar", "bg", "cs", "da", "de", "el", "en", "es", "et", "fi", "fr", "he", "hu", "id", "it",
        "ja", "ko", "lt", "lv", "nb", "nl", "pl", "pt", "ro", "ru", "sk", "sl", "sv", "th", "tr",
        "uk", "vi", "zh-CN",
    ];
    assert(r@.map_values(|s: &str| s@) =~= deepl_langs());
    r
}

} // verus!
