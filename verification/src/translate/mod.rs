//! Request decisions shared by the providers: the dictionary heuristic,
//! trimming of dictionary alternatives, finishing a translation, and what an
//! HTTP status means.

pub mod google;
pub mod deepl;
pub mod tts;

use vstd::prelude::*;
use crate::types::{
    terms_view, entries_view, ScoredTerm, DictEntry, TermView, EntryView, Translation,
    TranslationView, ProviderError, ProviderErrorView, ProviderKind, opt_error_view,
};
use crate::text::{trim, word_count, trimmed, count_words, decimal};

verus! {

/// The counter behind request ids: each request gets the next id, starting
/// from 1, so a later request always has a larger id.
#[derive(Debug)]
pub struct RequestCounter {
    last: u64,
}

impl View for RequestCounter {
    type V = u64;

    closed spec fn view(&self) -> u64 {
        self.last
    }
}

impl RequestCounter {
    /// A counter that has handed out no id yet.
    pub open spec fn is_fresh(self) -> bool {
        self@ == 0
    }

    /// One call of `next` on `before` returned `id` and left `after`.
    pub open spec fn next_step(before: RequestCounter, id: u64, after: RequestCounter) -> bool {
        &&& id == before@ + 1
        &&& after@ == id
    }

    pub fn new() -> (r: RequestCounter)
        ensures
            r.is_fresh(),
    {
        RequestCounter { last: 0 }
    }

    /// The last id handed out, or 0 before the first.
    pub fn last(&self) -> (r: u64)
        ensures
            r == self@,
    {
        self.last
    }

    /// Hand out the next id.
    pub fn next(&mut self) -> (r: u64)
        requires
            old(self)@ < u64::MAX,
        ensures
            RequestCounter::next_step(*old(self), r, *final(self)),
    {
        self.last = self.last + 1;
        self.last
    }
}

/// Ids of a run of requests: `states[0]` is a fresh counter and `ids[k]` is
/// what the `k`-th call of `next` returned, leaving `states[k + 1]`. Then the
/// calls returned 1, 2, ..., n in that order, each id once, and the counter
/// ends at n.
pub proof fn law_request_ids(states: Seq<RequestCounter>, ids: Seq<u64>)
    requires
        states.len() == ids.len() + 1,
        states[0].is_fresh(),
        forall|k: int| 0 <= k < ids.len() ==> RequestCounter::next_step(#[trigger] states[k], ids[k], states[k + 1]),
    ensures
        forall|k: int| 0 <= k < ids.len() ==> #[trigger] ids[k] == k + 1,
        forall|j: int, k: int| 0 <= j < k < ids.len() ==> #[trigger] ids[j] < #[trigger] ids[k],
        states[ids.len() as int]@ == ids.len(),
    decreases ids.len(),
{
    if ids.len() > 0 {
        let n = ids.len() - 1;
        let (s0, i0) = (states.take(n + 1), ids.take(n));
        assert forall|k: int| 0 <= k < i0.len() implies RequestCounter::next_step(#[trigger] s0[k], i0[k], s0[k + 1]) by {
            assert(RequestCounter::next_step(states[k], ids[k], states[k + 1]));
        }
        law_request_ids(s0, i0);
        assert(states.take(n + 1)[n] == states[n]);
        assert forall|k: int| 0 <= k < ids.len() implies #[trigger] ids[k] == k + 1 by {
            if k < n {
                assert(ids.take(n)[k] == ids[k]);
            } else {
                assert(RequestCounter::next_step(states[n], ids[n], states[n + 1]));
            }
        }
        assert(RequestCounter::next_step(states[n], ids[n], states[n + 1]));
    }
}

/// Terms whose score is below 1/2000 of their group's best are dropped.
pub const MIN_RELATIVE_SCORE_DIVISOR: i64 = 2000;

/// At most this many terms are kept per part of speech.
pub const MAX_TERMS_PER_POS: usize = 6;

/// The best score of a group, or 0 when none is positive.
pub open spec fn best_of(terms: Seq<TermView>) -> int
    decreases terms.len(),
{
    if terms.len() == 0 {
        0
    } else {
        let rest = best_of(terms.drop_last());
        if terms.last().score > rest {
            terms.last().score as int
        } else {
            rest
        }
    }
}

/// A term survives when the group has no positive score, or when it is within
/// 1/2000 of the best one.
pub open spec fn passes(t: TermView, best: int) -> bool {
    best <= 0 || 2000 * t.score >= best
}

pub open spec fn kept(terms: Seq<TermView>, best: int) -> Seq<TermView>
    decreases terms.len(),
{
    if terms.len() == 0 {
        seq![]
    } else {
        let rest = kept(terms.drop_last(), best);
        if passes(terms.last(), best) {
            rest.push(terms.last())
        } else {
            rest
        }
    }
}

/// The terms of one group after trimming: the survivors, capped at six.
pub open spec fn trim_group(terms: Seq<TermView>) -> Seq<TermView> {
    trim_group_with(terms, best_of(terms))
}

/// Every group trimmed; groups left without terms are dropped.
pub open spec fn trimmed_alternatives(alts: Seq<EntryView>) -> Seq<EntryView>
    decreases alts.len(),
{
    if alts.len() == 0 {
        seq![]
    } else {
        let rest = trimmed_alternatives(alts.drop_last());
        let g = alts.last();
        if trim_group(g.terms).len() > 0 {
            rest.push(EntryView { pos: g.pos, terms: trim_group(g.terms) })
        } else {
            rest
        }
    }
}

fn best_score(terms: &Vec<ScoredTerm>) -> (r: i64)
    ensures
        r == best_of(terms_view(terms@)),
{
    let mut best: i64 = 0;
    let mut i: usize = 0;
    while i < terms.len()
        invariant
            i <= terms.len(),
            best == best_of(terms_view(terms@.take(i as int))),
        decreases terms.len() - i,
    {
        assert(terms_view(terms@.take(i + 1)).drop_last() =~= terms_view(terms@.take(i as int)));
        if terms[i].score > best {
            best = terms[i].score;
        }
        i = i + 1;
    }
    assert(terms@.take(terms.len() as int) =~= terms@);
    best
}

fn trim_terms(terms: &Vec<ScoredTerm>) -> (r: Vec<ScoredTerm>)
    ensures
        terms_view(r@) == trim_group(terms_view(terms@)),
{
    let best = best_score(terms);
    let ghost tv = terms_view(terms@);
    let mut r: Vec<ScoredTerm> = Vec::new();
    let mut i: usize = 0;
    while i < terms.len() && r.len() < MAX_TERMS_PER_POS
        invariant
            i <= terms.len(),
            tv == terms_view(terms@),
            terms_view(r@) == kept(tv.take(i as int), best as int),
            r.len() <= 6,
        decreases terms.len() - i,
    {
        assert(tv.take(i + 1).drop_last() =~= tv.take(i as int));
        let t = &terms[i];
        let keep = best <= 0 || (t.score as i128) * (MIN_RELATIVE_SCORE_DIVISOR as i128) >= (best as i128);
        if keep {
            let copy = ScoredTerm { term: t.term.clone(), score: t.score };
            assert(terms_view(r@.push(copy)) =~= terms_view(r@).push(copy@));
            r.push(copy);
        }
        i = i + 1;
    }
    proof {
        lemma_kept_prefix(tv, best as int, i as int);
        if i == terms.len() {
            assert(tv.take(i as int) =~= tv);
        }
    }
    r
}

/// The survivors of a prefix are a prefix of the survivors, and once six are
/// found the cap makes the rest irrelevant.
proof fn lemma_kept_prefix(tv: Seq<TermView>, best: int, i: int)
    requires
        0 <= i <= tv.len(),
        kept(tv.take(i), best).len() <= 6,
        i < tv.len() ==> kept(tv.take(i), best).len() == 6,
    ensures
        kept(tv.take(i), best) == trim_group_with(tv, best),
{
    lemma_kept_extends(tv, best, i);
    if i == tv.len() {
        assert(tv.take(i) =~= tv);
    } else {
        assert(kept(tv, best).take(6) =~= kept(tv.take(i), best));
    }
}

pub open spec fn trim_group_with(tv: Seq<TermView>, best: int) -> Seq<TermView> {
    let k = kept(tv, best);
    if k.len() > 6 {
        k.take(6)
    } else {
        k
    }
}

/// `kept` of a prefix is a prefix of `kept` of the whole.
proof fn lemma_kept_extends(tv: Seq<TermView>, best: int, i: int)
    requires
        0 <= i <= tv.len(),
    ensures
        kept(tv.take(i), best).len() <= kept(tv, best).len(),
        kept(tv.take(i), best) =~= kept(tv, best).take(kept(tv.take(i), best).len() as int),
    decreases tv.len() - i,
{
    if i < tv.len() {
        lemma_kept_extends(tv, best, i + 1);
        assert(tv.take(i + 1).drop_last() =~= tv.take(i));
        let a = kept(tv.take(i), best);
        let b = kept(tv.take(i + 1), best);
        assert(b == a || b == a.push(tv[i]));
        assert(a =~= b.take(a.len() as int));
    } else {
        assert(tv.take(i) =~= tv);
    }
}

/// Providers return the full long tail of dictionary senses; Google's list
/// spans five orders of magnitude in frequency and ends in archaic curios
/// ("get" as a noun for animal offspring). Keep a term only when it is within
/// 1/2000 of its group's best score, capped per group. Groups without any
/// scores (some providers omit them) are kept as-is, capped. Groups left
/// empty are dropped.
pub fn trim_alternatives(alternatives: &mut Vec<DictEntry>)
    ensures
        entries_view(final(alternatives)@) == trimmed_alternatives(entries_view(old(alternatives)@)),
{
    let mut old: Vec<DictEntry> = Vec::new();
    std::mem::swap(&mut old, alternatives);
    let ghost ov = entries_view(old@);
    let mut r: Vec<DictEntry> = Vec::new();
    let mut i: usize = 0;
    let n = old.len();
    while i < n
        invariant
            i <= n == old.len(),
            ov == entries_view(old@),
            entries_view(r@) == trimmed_alternatives(ov.take(i as int)),
        decreases n - i,
    {
        assert(ov.take(i + 1).drop_last() =~= ov.take(i as int));
        let entry = &old[i];
        let terms = trim_terms(&entry.terms);
        if terms.len() > 0 {
            let e = DictEntry { pos: entry.pos.clone(), terms };
            assert(entries_view(r@.push(e)) =~= entries_view(r@).push(e@));
            r.push(e);
        }
        i = i + 1;
    }
    assert(ov.take(n as int) =~= ov);
    *alternatives = r;
}

proof fn lemma_best_bounds(t: Seq<TermView>)
    ensures
        best_of(t) >= 0,
        forall|i: int| 0 <= i < t.len() ==> t[i].score <= best_of(t),
        best_of(t) == 0 || exists|i: int| 0 <= i < t.len() && t[i].score == best_of(t),
    decreases t.len(),
{
    if t.len() > 0 {
        lemma_best_bounds(t.drop_last());
        assert forall|i: int| 0 <= i < t.len() implies t[i].score <= best_of(t) by {
            if i < t.len() - 1 {
                assert(t.drop_last()[i] == t[i]);
            }
        }
        if best_of(t) != 0 && best_of(t) != t.last().score {
            let j = choose|j: int| 0 <= j < t.drop_last().len() && t.drop_last()[j].score == best_of(t.drop_last());
            assert(t[j] == t.drop_last()[j]);
        }
    }
}

/// Every survivor passes the threshold and is one of the original terms.
proof fn lemma_kept_members(t: Seq<TermView>, b: int)
    ensures
        kept(t, b).len() <= t.len(),
        forall|j: int| 0 <= j < kept(t, b).len() ==> passes(#[trigger] kept(t, b)[j], b),
        forall|j: int| 0 <= j < kept(t, b).len() ==> exists|i: int| 0 <= i < t.len() && t[i] == #[trigger] kept(t, b)[j],
    decreases t.len(),
{
    if t.len() > 0 {
        lemma_kept_members(t.drop_last(), b);
        let rest = kept(t.drop_last(), b);
        assert forall|j: int| 0 <= j < kept(t, b).len() implies exists|i: int| 0 <= i < t.len() && t[i] == #[trigger] kept(t, b)[j] by {
            if j < rest.len() {
                let i = choose|i: int| 0 <= i < t.drop_last().len() && t.drop_last()[i] == rest[j];
                assert(t[i] == t.drop_last()[i]);
            } else {
                assert(t[t.len() - 1] == kept(t, b)[j]);
            }
        }
    }
}

/// When every term passes, nothing is dropped.
proof fn lemma_kept_all(t: Seq<TermView>, b: int)
    requires
        forall|i: int| 0 <= i < t.len() ==> passes(#[trigger] t[i], b),
    ensures
        kept(t, b) == t,
    decreases t.len(),
{
    if t.len() > 0 {
        assert forall|i: int| 0 <= i < t.drop_last().len() implies passes(#[trigger] t.drop_last()[i], b) by {
            assert(t.drop_last()[i] == t[i]);
        }
        lemma_kept_all(t.drop_last(), b);
        assert(t.drop_last().push(t.last()) =~= t);
    }
}

/// Trimming a group twice gives what trimming it once gives.
pub proof fn lemma_trim_group_idempotent(t: Seq<TermView>)
    ensures
        trim_group(trim_group(t)) == trim_group(t),
        trim_group(t).len() <= 6,
{
    let b = best_of(t);
    let k = kept(t, b);
    let g = trim_group(t);
    lemma_best_bounds(t);
    lemma_kept_members(t, b);
    lemma_best_bounds(g);
    assert forall|j: int| 0 <= j < g.len() implies passes(#[trigger] g[j], b) && g[j].score <= b by {
        assert(g[j] == k[j]);
        let i = choose|i: int| 0 <= i < t.len() && t[i] == k[j];
    }
    let b2 = best_of(g);
    if b2 != 0 {
        let j = choose|j: int| 0 <= j < g.len() && g[j].score == b2;
        assert(passes(g[j], b) && g[j].score <= b);
    }
    assert forall|j: int| 0 <= j < g.len() implies passes(#[trigger] g[j], b2) by {
        assert(passes(g[j], b) && g[j].score <= b);
        if b > 0 {
            assert(2000 * g[j].score >= b);
        }
    }
    lemma_kept_all(g, b2);
}

/// Trimming is idempotent: trimming already-trimmed alternatives changes
/// nothing.
pub proof fn law_trim_idempotent(alts: Seq<EntryView>)
    ensures
        trimmed_alternatives(trimmed_alternatives(alts)) == trimmed_alternatives(alts),
    decreases alts.len(),
{
    if alts.len() > 0 {
        law_trim_idempotent(alts.drop_last());
        let rest = trimmed_alternatives(alts.drop_last());
        let g = alts.last();
        lemma_trim_group_idempotent(g.terms);
        if trim_group(g.terms).len() > 0 {
            let e = EntryView { pos: g.pos, terms: trim_group(g.terms) };
            assert(rest.push(e).drop_last() =~= rest);
        }
    }
}

/// After trimming, every group holds between one and six terms.
pub proof fn law_trim_group_sizes(alts: Seq<EntryView>)
    ensures
        forall|i: int| 0 <= i < trimmed_alternatives(alts).len() ==> 0 < (#[trigger] trimmed_alternatives(alts)[i]).terms.len() <= 6,
    decreases alts.len(),
{
    if alts.len() > 0 {
        law_trim_group_sizes(alts.drop_last());
        lemma_trim_group_idempotent(alts.last().terms);
        let rest = trimmed_alternatives(alts.drop_last());
        assert forall|i: int| 0 <= i < trimmed_alternatives(alts).len() implies 0 < (#[trigger] trimmed_alternatives(alts)[i]).terms.len() <= 6 by {
            if i < rest.len() {
                assert(trimmed_alternatives(alts)[i] == rest[i]);
            }
        }
    }
}

/// Within one group: every kept term is one of the group's terms, and when
/// the group has a positive score, every kept term scores at least 1/2000 of
/// every score in the group; so a term scoring 0 is never kept from a group
/// with a positive score.
pub proof fn law_trim_keeps_close_terms(terms: Seq<TermView>)
    ensures
        forall|k: int| 0 <= k < trim_group(terms).len() ==> terms.contains(#[trigger] trim_group(terms)[k]),
        forall|k: int, i: int| 0 <= k < trim_group(terms).len() && 0 <= i < terms.len() && terms[i].score > 0
            ==> 2000 * (#[trigger] trim_group(terms)[k]).score >= (#[trigger] terms[i]).score,
{
    let b = best_of(terms);
    let k = kept(terms, b);
    let g = trim_group(terms);
    lemma_best_bounds(terms);
    lemma_kept_members(terms, b);
    assert forall|j: int| 0 <= j < g.len() implies terms.contains(#[trigger] g[j]) && passes(g[j], b) by {
        assert(g[j] == k[j]);
        let i = choose|i: int| 0 <= i < terms.len() && terms[i] == k[j];
    }
    assert forall|j: int, i: int| 0 <= j < g.len() && 0 <= i < terms.len() && terms[i].score > 0
        implies 2000 * (#[trigger] g[j]).score >= (#[trigger] terms[i]).score by {
        assert(passes(g[j], b));
        assert(terms[i].score <= b);
    }
}

/// Over all groups: each trimmed group stands for an input group with the
/// same part of speech, each of its terms is a term of that group, and when
/// that group has a positive score, each kept term scores at least 1/2000 of
/// every score in it.
pub proof fn law_trim_alternatives_close(alts: Seq<EntryView>)
    ensures
        forall|i: int| 0 <= i < trimmed_alternatives(alts).len() ==> exists|j: int| #![trigger alts[j]]
            0 <= j < alts.len()
            && (#[trigger] trimmed_alternatives(alts)[i]).pos == alts[j].pos
            && (forall|k: int| 0 <= k < trimmed_alternatives(alts)[i].terms.len() ==> {
                &&& alts[j].terms.contains(trimmed_alternatives(alts)[i].terms[k])
                &&& forall|u: int| 0 <= u < alts[j].terms.len() && alts[j].terms[u].score > 0
                    ==> 2000 * trimmed_alternatives(alts)[i].terms[k].score >= alts[j].terms[u].score
            }),
    decreases alts.len(),
{
    if alts.len() > 0 {
        let p = alts.drop_last();
        law_trim_alternatives_close(p);
        let rest = trimmed_alternatives(p);
        let out = trimmed_alternatives(alts);
        let n = alts.len() - 1;
        law_trim_keeps_close_terms(alts[n].terms);
        assert forall|i: int| 0 <= i < out.len() implies exists|j: int| #![trigger alts[j]]
            0 <= j < alts.len()
            && (#[trigger] out[i]).pos == alts[j].pos
            && (forall|k: int| 0 <= k < out[i].terms.len() ==> {
                &&& alts[j].terms.contains(out[i].terms[k])
                &&& forall|u: int| 0 <= u < alts[j].terms.len() && alts[j].terms[u].score > 0
                    ==> 2000 * out[i].terms[k].score >= alts[j].terms[u].score
            }) by {
            if i < rest.len() {
                assert(out[i] == rest[i]);
                let j = choose|j: int| #![trigger p[j]]
                    0 <= j < p.len()
                    && rest[i].pos == p[j].pos
                    && (forall|k: int| 0 <= k < rest[i].terms.len() ==> {
                        &&& p[j].terms.contains(rest[i].terms[k])
                        &&& forall|u: int| 0 <= u < p[j].terms.len() && p[j].terms[u].score > 0
                            ==> 2000 * rest[i].terms[k].score >= p[j].terms[u].score
                    });
                assert(alts[j] == p[j]);
            } else {
                let g = trim_group(alts[n].terms);
                assert(out[i].terms == g);
                assert forall|k: int| 0 <= k < out[i].terms.len() implies {
                    &&& alts[n].terms.contains(out[i].terms[k])
                    &&& forall|u: int| 0 <= u < alts[n].terms.len() && alts[n].terms[u].score > 0
                        ==> 2000 * out[i].terms[k].score >= alts[n].terms[u].score
                } by {
                    assert(out[i].terms[k] == g[k]);
                    assert forall|u: int| 0 <= u < alts[n].terms.len() && alts[n].terms[u].score > 0
                        implies 2000 * out[i].terms[k].score >= alts[n].terms[u].score by {
                        assert(2000 * g[k].score >= alts[n].terms[u].score);
                    }
                }
            }
        }
    }
}

/// A text whose trimmed form holds '.', '?', '!', ';' or ':' anywhere is not
/// a dictionary query, whatever else it holds.
pub proof fn law_punctuation_rules_out_dictionary(text: Seq<char>, i: int)
    requires
        0 <= i < trim(text).len(),
        trim(text)[i] == '.' || trim(text)[i] == '?' || trim(text)[i] == '!'
            || trim(text)[i] == ';' || trim(text)[i] == ':',
    ensures
        !dictionary_query(text),
{
    assert(is_sentence_punct(trim(text)[i]));
}

/// Sentence punctuation that rules a query out of dictionary treatment.
pub open spec fn is_sentence_punct(c: char) -> bool {
    c == '.' || c == '?' || c == '!' || c == ';' || c == ':'
}

/// A word or short phrase: non-blank, at most two whitespace-separated
/// tokens, and no sentence punctuation.
pub open spec fn dictionary_query(text: Seq<char>) -> bool {
    let t = trim(text);
    &&& t.len() > 0
    &&& word_count(t) <= 2
    &&& forall|i: int| 0 <= i < t.len() ==> !is_sentence_punct(#[trigger] t[i])
}

/// A query gets dictionary treatment when it looks like a word or short
/// phrase: at most two whitespace tokens and no sentence punctuation.
pub fn is_dictionary_query(text: &str) -> (r: bool)
    ensures
        r == dictionary_query(text@),
{
    let t = trimmed(text);
    if t.len() == 0 {
        return false;
    }
    if count_words(&t) > 2 {
        return false;
    }
    let mut i: usize = 0;
    while i < t.len()
        invariant
            i <= t.len(),
            t@ == trim(text@),
            forall|k: int| 0 <= k < i ==> !is_sentence_punct(#[trigger] t@[k]),
        decreases t.len() - i,
    {
        let c = t[i];
        if c == '.' || c == '?' || c == '!' || c == ';' || c == ':' {
            assert(is_sentence_punct(t@[i as int]));
            return false;
        }
        i = i + 1;
    }
    true
}

impl ProviderKind {
    /// Whether the provider returns dictionary data at all.
    pub fn supports_dictionary(&self) -> (r: bool)
        ensures
            r == (*self == ProviderKind::GoogleFree),
    {
        match self {
            ProviderKind::GoogleFree => true,
            ProviderKind::DeepL => false,
        }
    }
}

/// Dictionary work is asked for only for word-like queries, and only from a
/// provider that can do it.
pub fn wants_dictionary(text: &str, provider_supports: bool) -> (r: bool)
    ensures
        r == (dictionary_query(text@) && provider_supports),
{
    is_dictionary_query(text) && provider_supports
}

/// The translation a finished request hands to the frontend.
pub open spec fn finished(t: TranslationView, request_id: u64, want_dictionary: bool) -> TranslationView {
    TranslationView {
        request_id: request_id,
        primary: t.primary,
        alternatives: if want_dictionary {
            trimmed_alternatives(t.alternatives)
        } else {
            seq![]
        },
        definitions: if want_dictionary {
            t.definitions
        } else {
            seq![]
        },
        detected_lang: t.detected_lang,
    }
}

/// Stamp a provider's translation with the request id; drop dictionary data
/// the request did not ask for, and trim what is left.
pub fn finish_translation(t: Translation, request_id: u64, want_dictionary: bool) -> (r: Translation)
    ensures
        r@ == finished(t@, request_id, want_dictionary),
{
    let mut t = t;
    t.request_id = request_id;
    if !want_dictionary {
        t.alternatives = Vec::new();
        t.definitions = Vec::new();
        assert(entries_view(t.alternatives@) =~= seq![]);
        assert(crate::types::definitions_view(t.definitions@) =~= seq![]);
    }
    trim_alternatives(&mut t.alternatives);
    t
}

/// The text "http " followed by `status`.
pub open spec fn http_message(status: Seq<char>) -> Seq<char> {
    "http "@ + status
}

/// What an HTTP status means for a Google request: 429 is a rate limit, any
/// other status outside 200..=299 a network-class failure carrying "http "
/// and the status as displayed.
pub open spec fn google_status(code: u16, status: Seq<char>) -> Option<ProviderErrorView> {
    if code == 429 {
        Some(ProviderErrorView::RateLimited)
    } else if 200 <= code <= 299 {
        None
    } else {
        Some(ProviderErrorView::Network(http_message(status)))
    }
}

/// Every error a Google status maps to is worth retrying.
pub proof fn law_google_status_retryable(code: u16, status: Seq<char>)
    ensures
        google_status(code, status) matches Some(e) ==> crate::types::retryable_view(e),
        google_status(code, status) is None <==> (code != 429 && 200 <= code <= 299),
{
}

pub fn http_status_error(code: u16, status: &str) -> (r: Option<ProviderError>)
    ensures
        opt_error_view(r) == google_status(code, status@),
{
    if code == 429 {
        return Some(ProviderError::RateLimited);
    }
    if 200 <= code && code <= 299 {
        return None;
    }
    let mut m = String::from_str("http ");
    m.append(status);
    Some(ProviderError::Network(m))
}

/// The reason phrase reqwest shows after a status code: the code's canonical
/// reason, or a placeholder for a code that has none.
pub uninterp spec fn status_reason(code: u16) -> Seq<char>;

/// How reqwest shows the HTTP status `code`: the code in decimal, a space,
/// and its reason phrase.
pub open spec fn status_display(code: u16) -> Seq<char> {
    decimal(code as nat) + " "@ + status_reason(code)
}

/// `reqwest::StatusCode::from_u16(code)` written out with its `Display`
/// impl, which writes the code, a space and the canonical reason (or
/// "<unknown status code>"). Claimed: the text is the decimal code, a space,
/// and `status_reason(code)`, a function of the code alone; which phrase each
/// code has stays unsaid. Numbers outside 100..=999 are no status code and
/// are left out.
#[verifier::external_body]
fn status_line(code: u16) -> (r: String)
    requires
        100 <= code <= 999,
    ensures
        r@ == decimal(code as nat) + " "@ + status_reason(code),
{
    match reqwest::StatusCode::from_u16(code) {
        Ok(status) => status.to_string(),
        Err(_) => String::new(),
    }
}

/// What the HTTP status `code` of a provider's reply means, with the status
/// shown as reqwest shows it.
pub fn status_error(code: u16) -> (r: Option<ProviderError>)
    requires
        100 <= code <= 999,
    ensures
        opt_error_view(r) == google_status(code, status_display(code)),
{
    let shown = status_line(code);
    http_status_error(code, shown.as_str())
}

} // verus!
