//! Shortcut text accepted by the global-shortcut layer.

use vstd::prelude::*;
use global_hotkey::hotkey::HotKey;
use crate::text::ascii_upper;

verus! {

#[verifier::external_type_specification]
#[verifier::external_body]
pub struct ExHotKey(HotKey);

/// Whether `global_hotkey`'s `HotKey::from_str` accepts the text: modifiers
/// first, then exactly one key, separated by '+'.
pub uninterp spec fn hotkey_accepted(text: Seq<char>) -> bool;

/// The shortcut `HotKey::from_str` makes of an accepted text: its modifiers,
/// key and id.
pub uninterp spec fn hotkey_of(text: Seq<char>) -> HotKey;

/// The text names one of the "command or control" modifiers
/// (`CmdOrCtrl`, `CommandOrControl`, ...), which stand for a different
/// modifier on macOS than elsewhere: some stretch of it reads "CMDOR" or
/// "COMMANDOR" in any case.
pub open spec fn names_platform_modifier(text: Seq<char>) -> bool {
    exists|i: int| 0 <= i && {
        ||| i + 5 <= text.len() && ascii_upper(#[trigger] text.subrange(i, text.len() as int)).take(5) == "CMDOR"@
        ||| i + 9 <= text.len() && ascii_upper(text.subrange(i, text.len() as int)).take(9) == "COMMANDOR"@
    }
}

/// Parse a shortcut such as "Ctrl+L" with `HotKey::from_str` (the type the
/// global-shortcut plugin calls `Shortcut`). Claimed: the result is `Ok`
/// exactly when `hotkey_accepted` holds of the text, which is a function of
/// the text alone; and "Ctrl+L" (a `CTRL` modifier, then the key `L`) is
/// accepted; the shortcut that comes out is `hotkey_of` the text, a function
/// of the text alone unless the text names a "command or control" modifier,
/// whose meaning depends on the platform. Left unstated: which key and
/// modifiers a text stands for, what comes out of a text naming such a
/// modifier, and the wording of the error, which is the parse error's
/// `Display`.
#[verifier::external_body]
pub fn parse(hotkey: &str) -> (r: Result<HotKey, String>)
    ensures
        r is Ok <==> hotkey_accepted(hotkey@),
        hotkey@ == "Ctrl+L"@ ==> r is Ok,
        r matches Ok(k) ==> (!names_platform_modifier(hotkey@) ==> k == hotkey_of(hotkey@)),
{
    match hotkey.parse::<HotKey>() {
        Ok(k) => Ok(k),
        Err(e) => Err(e.to_string()),
    }
}


} // verus!
