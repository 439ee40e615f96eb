//! Selected-text capture: the swappable capture interface and what counts as
//! a usable selection.

use vstd::prelude::*;
use crate::text::{trim, trimmed, string_from, lemma_trim_idempotent};

verus! {

/// Swappable wrapper around selected-text capture.
pub trait SelectionCapture: Send + Sync {
    /// Returns the current selection, or None when nothing usable is selected.
    fn capture(&self) -> Option<String>;
}

/// A capture result as the orchestrator wants it: nothing, or a non-empty
/// text with no whitespace at either end.
pub open spec fn is_clean(r: Option<String>) -> bool {
    match r {
        Some(t) => t@.len() > 0 && trim(t@) == t@,
        None => true,
    }
}

/// The usable part of a raw capture: the selection trimmed, or `None` when
/// capture failed or nothing but whitespace was selected.
pub fn clean_selection(raw: Option<String>) -> (r: Option<String>)
    ensures
        match raw {
            Some(text) => if trim(text@).len() > 0 {
                r matches Some(t) && t@ == trim(text@)
            } else {
                r is None
            },
            None => r is None,
        },
        is_clean(r),
{
    match raw {
        Some(text) => {
            let t = trimmed(text.as_str());
            if t.len() == 0 {
                None
            } else {
                let s = string_from(&t, 0, t.len());
                assert(t@.subrange(0, t.len() as int) =~= t@);
                proof {
                    lemma_trim_idempotent(text@);
                }
                Some(s)
            }
        },
        None => None,
    }
}

} // verus!
