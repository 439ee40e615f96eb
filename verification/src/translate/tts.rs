//! Unofficial Google text-to-speech endpoint: request parameters and reading
//! the reply. Requests carry at most MAX_TTS_CHARS characters.

use vstd::prelude::*;
use crate::types::{normalize_lang, normalized, ProviderError, ProviderErrorView};
use crate::translate::{google_status, status_display, status_error};
use crate::text::to_owned;

verus! {

pub const MAX_TTS_CHARS: usize = 200;

/// The first MAX_TTS_CHARS characters of `text`.
pub open spec fn clipped(text: Seq<char>) -> Seq<char> {
    if text.len() > 200 {
        text.take(200)
    } else {
        text
    }
}

/// Clipping keeps a prefix of at most MAX_TTS_CHARS characters, leaves short
/// texts alone, and clipping twice changes nothing.
pub proof fn law_clip(text: Seq<char>)
    ensures
        clipped(text).len() <= 200,
        clipped(text) == text.take(clipped(text).len() as int),
        text.len() <= 200 ==> clipped(text) == text,
        clipped(clipped(text)) == clipped(text),
{
    assert(text.take(text.len() as int) =~= text);
}

/// Cut `text` to the character budget, on a character boundary.
pub fn clip_text(text: &str) -> (r: &str)
    ensures
        r@ == clipped(text@),
{
    let n = text.unicode_len();
    if n > MAX_TTS_CHARS {
        text.substring_char(0, MAX_TTS_CHARS)
    } else {
        text
    }
}

/// Query parameters for a speech request.
pub fn query_params(text: &str, lang: &str) -> (r: Vec<(&'static str, String)>)
    ensures
        r@.len() == 4,
        r@[0].0@ == "ie"@ && r@[0].1@ == "UTF-8"@,
        r@[1].0@ == "client"@ && r@[1].1@ == "tw-ob"@,
        r@[2].0@ == "tl"@ && r@[2].1@ == normalized(lang@),
        r@[3].0@ == "q"@ && r@[3].1@ == clipped(text@),
{
    let mut r: Vec<(&'static str, String)> = Vec::new();
    r.push(("ie", String::from_str("UTF-8")));
    r.push(("client", String::from_str("tw-ob")));
    r.push(("tl", normalize_lang(lang)));
    r.push(("q", to_owned(clip_text(text))));
    r
}

/// The audio of a successful reply; an empty one is a network-class failure.
pub fn audio_result(bytes: Vec<u8>) -> (r: Result<Vec<u8>, ProviderError>)
    ensures
        bytes@.len() == 0 ==> (r matches Err(e) && e@ == ProviderErrorView::Network("empty audio response"@)),
        bytes@.len() > 0 ==> (r matches Ok(b) && b@ == bytes@),
{
    if bytes.len() == 0 {
        Err(ProviderError::Network(String::from_str("empty audio response")))
    } else {
        Ok(bytes)
    }
}

/// What a successful reply's audio gives: the bytes, or an error when empty.
pub open spec fn audio_reply(bytes: Seq<u8>) -> Result<Seq<u8>, ProviderErrorView> {
    if bytes.len() == 0 {
        Err(ProviderErrorView::Network("empty audio response"@))
    } else {
        Ok(bytes)
    }
}

/// A speech result as values.
pub open spec fn audio_view(r: Result<Vec<u8>, ProviderError>) -> Result<Seq<u8>, ProviderErrorView> {
    match r {
        Ok(b) => Ok(b@),
        Err(e) => Err(e@),
    }
}

/// The outcome of a speech reply with status `code`: the status's error if it
/// has one; else the error of reading the body, if that failed; else the
/// audio, which is never empty.
pub fn finish_speech(code: u16, body: Result<Vec<u8>, ProviderError>) -> (r: Result<Vec<u8>, ProviderError>)
    requires
        100 <= code <= 999,
    ensures
        audio_view(r) == match google_status(code, status_display(code)) {
            Some(e) => Err(e),
            None => match body {
                Err(e) => Err(e@),
                Ok(bytes) => audio_reply(bytes@),
            },
        },
        r matches Ok(b) ==> b@.len() > 0,
{
    if let Some(e) = status_error(code) {
        return Err(e);
    }
    match body {
        Err(e) => Err(e),
        Ok(bytes) => audio_result(bytes),
    }
}

} // verus!
