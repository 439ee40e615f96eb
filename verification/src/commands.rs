//! Decisions behind the frontend's commands that are not session state.

use vstd::prelude::*;
use crate::config::{Config, strings_view};
use crate::types::ProviderKind;

verus! {

/// The settings "Test" button's target: "nl" when the provider supports it,
/// else its first language, else "en".
pub open spec fn test_target(langs: Seq<Seq<char>>) -> Seq<char> {
    if langs.contains("nl"@) {
        "nl"@
    } else if langs.len() > 0 {
        langs[0]
    } else {
        "en"@
    }
}

/// Pick a target the provider claims to support for a one-word test.
pub fn pick_test_target(langs: &Vec<&'static str>) -> (r: &'static str)
    ensures
        r@ == test_target(langs@.map_values(|s: &str| s@)),
{
    let ghost lv = langs@.map_values(|s: &str| s@);
    let nl: Vec<char> = crate::text::chars_of("nl");
    let mut i: usize = 0;
    while i < langs.len()
        invariant
            i <= langs.len(),
            lv == langs@.map_values(|s: &str| s@),
            nl@ == "nl"@,
            forall|k: int| 0 <= k < i ==> lv[k] != "nl"@,
        decreases langs.len() - i,
    {
        if crate::text::equals(langs[i], &nl) {
            assert(lv[i as int] == "nl"@);
            assert(lv.contains("nl"@));
            return langs[i];
        }
        i = i + 1;
    }
    assert(!lv.contains("nl"@));
    if langs.len() > 0 {
        langs[0]
    } else {
        "en"
    }
}

/// The configuration a provider test runs with: the saved one with the given
/// provider, and, for providers other than Google's free endpoint, the given
/// key.
pub fn test_config(config: &Config, provider: ProviderKind, api_key: String) -> (r: Config)
    ensures
        r.provider == provider,
        r.api_keys@ == if provider != ProviderKind::GoogleFree {
            config.api_keys@.insert(provider, api_key@)
        } else {
            config.api_keys@
        },
        r.hotkey@ == config.hotkey@,
        strings_view(r.lang_preferences@) == strings_view(config.lang_preferences@),
        r.source_lang@ == config.source_lang@,
        r.target_lang@ == config.target_lang@,
        r.launch_at_startup == config.launch_at_startup,
        r.theme == config.theme,
        r.accent@ == config.accent@,
{
    let mut c = config.copy();
    c.provider = provider;
    if provider != ProviderKind::GoogleFree {
        c.api_keys.insert(provider, api_key);
    }
    c
}

} // verus!
