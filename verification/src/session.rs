//! Per-popup-session state owned by the backend; the frontend only renders
//! it. Languages, pinning, and what the last translation left behind.

use vstd::prelude::*;
use crate::types::{normalized, opt_view, langs_equal, Lang, Translation};
use crate::text::{auto_code, auto_string, is_auto, to_owned};

verus! {

#[derive(Debug)]
pub struct PopupSession {
    pub src: Lang,
    pub tgt: Lang,
    pub pinned: bool,
    pub last_primary: Option<String>,
    pub last_detected: Option<Lang>,
}

impl Default for PopupSession {
    fn default() -> (r: Self)
        ensures
            r.src@ == Seq::<char>::empty(),
            r.tgt@ == Seq::<char>::empty(),
            !r.pinned,
            r.last_primary is None,
            r.last_detected is None,
    {
        PopupSession {
            src: String::new(),
            tgt: String::new(),
            pinned: false,
            last_primary: None,
            last_detected: None,
        }
    }
}

/// The languages after a swap, or `None` when there is nothing meaningful to
/// swap: an "auto" source resolves to the last detected language, which must
/// differ from the target.
pub open spec fn swapped(src: Seq<char>, tgt: Seq<char>, detected: Option<Seq<char>>) -> Option<(Seq<char>, Seq<char>)> {
    if src == auto_code() {
        match detected {
            Some(d) => if normalized(d) != normalized(tgt) {
                Some((tgt, d))
            } else {
                None
            },
            None => None,
        }
    } else {
        Some((tgt, src))
    }
}

impl PopupSession {
    pub fn set_langs(&mut self, src: Lang, tgt: Lang)
        ensures
            final(self).src@ == src@,
            final(self).tgt@ == tgt@,
            final(self).pinned == old(self).pinned,
            final(self).last_primary == old(self).last_primary,
            final(self).last_detected == old(self).last_detected,
    {
        self.src = src;
        self.tgt = tgt;
    }

    /// Swap source and target; returns the new pair, or `None` (and leaves
    /// the session alone) when there is nothing to swap.
    pub fn swap_langs(&mut self) -> (r: Option<(Lang, Lang)>)
        ensures
            match swapped(old(self).src@, old(self).tgt@, opt_view(old(self).last_detected)) {
                None => r is None && *final(self) == *old(self),
                Some(p) => r matches Some(q) && q.0@ == p.0 && q.1@ == p.1 && final(self).src@ == p.0
                    && final(self).tgt@ == p.1 && final(self).pinned == old(self).pinned
                    && final(self).last_primary == old(self).last_primary
                    && final(self).last_detected == old(self).last_detected,
            },
    {
        let resolved_src: String = if is_auto(self.src.as_str()) {
            match &self.last_detected {
                Some(detected) => {
                    if langs_equal(detected.as_str(), self.tgt.as_str()) {
                        return None;
                    }
                    detected.clone()
                },
                None => {
                    return None;
                },
            }
        } else {
            self.src.clone()
        };
        let new_src = self.tgt.clone();
        self.src = new_src.clone();
        self.tgt = resolved_src.clone();
        Some((new_src, resolved_src))
    }

    /// Flip pinning; returns the new state.
    pub fn toggle_pin(&mut self) -> (r: bool)
        ensures
            r == !old(self).pinned,
            final(self).pinned == r,
            final(self).src == old(self).src,
            final(self).tgt == old(self).tgt,
            final(self).last_primary == old(self).last_primary,
            final(self).last_detected == old(self).last_detected,
    {
        self.pinned = !self.pinned;
        self.pinned
    }

    /// Start a fresh popup show: unpinned, detecting the source, translating
    /// into `target`, with no result to copy yet. Returns the languages the
    /// frontend is seeded with.
    pub fn reset_for_show(&mut self, target: &str) -> (r: (Lang, Lang))
        ensures
            !final(self).pinned,
            final(self).src@ == auto_code(),
            final(self).tgt@ == target@,
            final(self).last_primary is None,
            final(self).last_detected == old(self).last_detected,
            r.0@ == auto_code(),
            r.1@ == target@,
    {
        let src = auto_string();
        self.pinned = false;
        self.src = src.clone();
        self.tgt = to_owned(target);
        self.last_primary = None;
        (src, to_owned(target))
    }

    /// Remember what a successful translation left to copy and to swap with.
    pub fn record_result(&mut self, t: &Translation)
        ensures
            final(self).last_primary matches Some(p) && p@ == t.primary@,
            opt_view(final(self).last_detected) == opt_view(t.detected_lang),
            final(self).src == old(self).src,
            final(self).tgt == old(self).tgt,
            final(self).pinned == old(self).pinned,
    {
        self.last_primary = Some(t.primary.clone());
        self.last_detected = match &t.detected_lang {
            Some(d) => Some(d.clone()),
            None => None,
        };
    }
}

/// Swapping an explicit pair of languages twice gives the pair back.
pub proof fn law_swap_involution(src: Seq<char>, tgt: Seq<char>, detected: Option<Seq<char>>)
    requires
        src != auto_code(),
        tgt != auto_code(),
    ensures
        swapped(src, tgt, detected) == Some((tgt, src)),
        swapped(tgt, src, detected) == Some((src, tgt)),
{
}

/// With a detected source the swap moves the target to the source and the
/// detected language to the target; a second swap brings back the target.
pub proof fn law_swap_resolves_auto(tgt: Seq<char>, d: Seq<char>)
    requires
        normalized(d) != normalized(tgt),
        tgt != auto_code(),
    ensures
        swapped(auto_code(), tgt, Some(d)) == Some((tgt, d)),
        swapped(tgt, d, Some(d)) == Some((d, tgt)),
{
}

} // verus!
