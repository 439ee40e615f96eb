//! Reading the unofficial Google endpoint's response. The response is a
//! positional JSON array where every index may be null or absent, so all
//! parsing here is defensive.

use vstd::prelude::*;
use crate::json::{Json, at, str_of, arr_of, opt_deref, str_at, array_at};
use crate::types::{
    normalize_lang, normalized, terms_view, entries_view, definitions_view, ScoredTerm, DictEntry,
    Definition, Translation, TermView, EntryView, DefinitionView, TranslationView, ProviderError,
    ProviderErrorView, TranslateRequest, outcome_view,
};
use crate::translate::{google_status, status_display, status_error};

verus! {

/// Element `i` of a sequence of values, if any.
pub open spec fn elem(root: Seq<Json>, i: int) -> Option<Json> {
    if 0 <= i < root.len() {
        Some(root[i])
    } else {
        None
    }
}

/// Text of a sentence segment `[text, ...]`; empty when it has none.
pub open spec fn seg_text(seg: Json) -> Seq<char> {
    match str_of(at(seg, 0)) {
        Some(t) => t,
        None => seq![],
    }
}

pub open spec fn joined(segs: Seq<Json>) -> Seq<char>
    decreases segs.len(),
{
    if segs.len() == 0 {
        seq![]
    } else {
        joined(segs.drop_last()) + seg_text(segs.last())
    }
}

/// The primary translation: the texts of the segments in `[0]`, joined.
pub open spec fn primary_text(root: Seq<Json>) -> Seq<char> {
    match arr_of(elem(root, 0)) {
        Some(segs) => joined(segs),
        None => seq![],
    }
}

/// A score: the number, or 0 when absent or not a number.
pub open spec fn score_of(j: Option<Json>) -> i64 {
    match j {
        Some(Json::Number(n)) => n,
        _ => 0,
    }
}

/// Scored entries `[term, [back-translations], _, score?]`; entries without a
/// string term are skipped.
pub open spec fn scored_terms(entries: Seq<Json>) -> Seq<TermView>
    decreases entries.len(),
{
    if entries.len() == 0 {
        seq![]
    } else {
        let rest = scored_terms(entries.drop_last());
        let e = entries.last();
        match str_of(at(e, 0)) {
            Some(t) => rest.push(TermView { term: t, score: score_of(at(e, 3)) }),
            None => rest,
        }
    }
}

/// Plain term list: the strings, each with score 0.
pub open spec fn plain_terms(items: Seq<Json>) -> Seq<TermView>
    decreases items.len(),
{
    if items.len() == 0 {
        seq![]
    } else {
        let rest = plain_terms(items.drop_last());
        match items.last() {
            Json::Str(s) => rest.push(TermView { term: s@, score: 0 }),
            _ => rest,
        }
    }
}

/// Terms of a dictionary group: the scored list at `[2]` when it is an array,
/// else the plain list at `[1]`.
pub open spec fn group_terms(group: Json) -> Seq<TermView> {
    match arr_of(at(group, 2)) {
        Some(scored) => scored_terms(scored),
        None => match arr_of(at(group, 1)) {
            Some(plain) => plain_terms(plain),
            None => seq![],
        },
    }
}

/// Groups `[pos, ...]` with a string part of speech and at least one term.
pub open spec fn dict_groups(groups: Seq<Json>) -> Seq<EntryView>
    decreases groups.len(),
{
    if groups.len() == 0 {
        seq![]
    } else {
        let rest = dict_groups(groups.drop_last());
        let g = groups.last();
        match str_of(at(g, 0)) {
            Some(pos) => if group_terms(g).len() > 0 {
                rest.push(EntryView { pos: pos, terms: group_terms(g) })
            } else {
                rest
            },
            None => rest,
        }
    }
}

/// The `bd` block read as dictionary groups; empty unless it is an array.
pub open spec fn dictionary(v: Option<Json>) -> Seq<EntryView> {
    match arr_of(v) {
        Some(groups) => dict_groups(groups),
        None => seq![],
    }
}

/// A group shaped like the `md` block's: `[pos, [[definition, ...], ...]]`.
pub open spec fn shape_ok(g: Json) -> bool {
    &&& str_of(at(g, 0)) is Some
    &&& match arr_of(at(g, 1)) {
        Some(defs) => defs.len() > 0 && match arr_of(Some(defs[0])) {
            Some(first) => first.len() > 0 && first[0] is Str,
            None => false,
        },
        None => false,
    }
}

/// A non-empty array all of whose groups have the `md` shape.
pub open spec fn is_md_block(v: Json) -> bool {
    match v {
        Json::Array(gs) => gs@.len() > 0 && forall|i: int| 0 <= i < gs@.len() ==> shape_ok(#[trigger] gs@[i]),
        _ => false,
    }
}

pub open spec fn def_texts(pos: Seq<char>, defs: Seq<Json>) -> Seq<DefinitionView>
    decreases defs.len(),
{
    if defs.len() == 0 {
        seq![]
    } else {
        let rest = def_texts(pos, defs.drop_last());
        match str_of(at(defs.last(), 0)) {
            Some(t) => rest.push(DefinitionView { pos: pos, text: t }),
            None => rest,
        }
    }
}

pub open spec fn group_definitions(g: Json) -> Seq<DefinitionView> {
    let pos = match str_of(at(g, 0)) {
        Some(p) => p,
        None => seq![],
    };
    match arr_of(at(g, 1)) {
        Some(defs) => def_texts(pos, defs),
        None => seq![],
    }
}

pub open spec fn flat_definitions(groups: Seq<Json>) -> Seq<DefinitionView>
    decreases groups.len(),
{
    if groups.len() == 0 {
        seq![]
    } else {
        flat_definitions(groups.drop_last()) + group_definitions(groups.last())
    }
}

/// Definitions from the first `md`-shaped element at index `i` or later.
pub open spec fn definitions_from(root: Seq<Json>, i: int) -> Seq<DefinitionView>
    decreases root.len() - i,
{
    if i < 0 || i >= root.len() {
        seq![]
    } else if is_md_block(root[i]) {
        match root[i] {
            Json::Array(gs) => flat_definitions(gs@),
            _ => seq![],
        }
    } else {
        definitions_from(root, i + 1)
    }
}

/// The detected language at `[2]`, normalized.
pub open spec fn detected(root: Seq<Json>) -> Option<Seq<char>> {
    match str_of(elem(root, 2)) {
        Some(c) => Some(normalized(c)),
        None => None,
    }
}

/// The translation a parsed root array stands for.
pub open spec fn google_translation(root: Seq<Json>, request_id: u64) -> TranslationView {
    TranslationView {
        request_id: request_id,
        primary: primary_text(root),
        alternatives: dictionary(elem(root, 1)),
        definitions: definitions_from(root, 3),
        detected_lang: detected(root),
    }
}

/// A read translation has a non-empty primary text, and its detected
/// language is already in canonical form.
pub proof fn law_google_translation_shape(root: Seq<Json>, request_id: u64)
    requires
        primary_text(root).len() > 0,
    ensures
        google_translation(root, request_id).primary.len() > 0,
        google_translation(root, request_id).request_id == request_id,
        google_translation(root, request_id).detected_lang matches Some(d) ==> normalized(d) == d,
{
    if let Some(c) = str_of(elem(root, 2)) {
        crate::types::law_normalize_idempotent(c);
    }
}

/// A body that parsed as JSON and reads as a translation.
pub open spec fn readable(parsed: Option<Json>) -> bool {
    match parsed {
        Some(Json::Array(root)) => primary_text(root@).len() > 0,
        _ => false,
    }
}

/// The query of a translation request: the text, the languages, the
/// sentence block, and the dictionary blocks when the request wants them.
pub open spec fn google_query(req: TranslateRequest) -> Seq<(Seq<char>, Seq<char>)> {
    let head = seq![("client"@, "gtx"@), ("sl"@, req.src@), ("tl"@, req.tgt@), ("dt"@, "t"@)];
    let dict = if req.want_dictionary {
        seq![("dt"@, "bd"@), ("dt"@, "md"@), ("dt"@, "at"@)]
    } else {
        seq![]
    };
    head + dict + seq![("q"@, req.text@)]
}

pub open spec fn params_view(p: Seq<(&'static str, String)>) -> Seq<(Seq<char>, Seq<char>)> {
    p.map_values(|x: (&'static str, String)| (x.0@, x.1@))
}

pub fn query_params(req: &TranslateRequest) -> (r: Vec<(&'static str, String)>)
    ensures
        params_view(r@) == google_query(*req),
{
    let mut r: Vec<(&'static str, String)> = Vec::new();
    r.push(("client", String::from_str("gtx")));
    r.push(("sl", req.src.clone()));
    r.push(("tl", req.tgt.clone()));
    r.push(("dt", String::from_str("t")));
    if req.want_dictionary {
        r.push(("dt", String::from_str("bd")));
        r.push(("dt", String::from_str("md")));
        r.push(("dt", String::from_str("at")));
    }
    r.push(("q", req.text.clone()));
    assert(params_view(r@) =~= google_query(*req));
    r
}

/// Every query carries the request's source language under "sl" and its
/// target language under "tl", and nothing else under either key; the text
/// goes last under "q"; the dictionary blocks are asked for exactly when the
/// request wants them.
pub proof fn law_query_languages(req: TranslateRequest)
    ensures
        google_query(req).contains(("sl"@, req.src@)),
        google_query(req).contains(("tl"@, req.tgt@)),
        forall|i: int| 0 <= i < google_query(req).len() && (#[trigger] google_query(req)[i]).0 == "sl"@
            ==> google_query(req)[i].1 == req.src@,
        forall|i: int| 0 <= i < google_query(req).len() && (#[trigger] google_query(req)[i]).0 == "tl"@
            ==> google_query(req)[i].1 == req.tgt@,
        google_query(req).last() == ("q"@, req.text@),
        google_query(req).contains(("dt"@, "bd"@)) == req.want_dictionary,
{
    reveal_strlit("client");
    reveal_strlit("sl");
    reveal_strlit("tl");
    reveal_strlit("dt");
    reveal_strlit("q");
    reveal_strlit("t");
    reveal_strlit("bd");
    reveal_strlit("md");
    reveal_strlit("at");
    let q = google_query(req);
    assert(q[1] == ("sl"@, req.src@));
    assert(q[2] == ("tl"@, req.tgt@));
    if req.want_dictionary {
        assert(q[4] == ("dt"@, "bd"@));
    } else {
        assert(q.len() == 5);
        assert forall|i: int| 0 <= i < q.len() implies q[i] != ("dt"@, "bd"@) by {
            if i == 3 {
                assert(q[i].1 == "t"@);
                assert(q[i].1.len() != "bd"@.len());
            } else if i == 4 {
                assert(q[i].0 == "q"@);
                assert(q[i].0.len() != "dt"@.len());
            } else if i == 0 {
                assert(q[i].0 == "client"@);
                assert(q[i].0.len() != "dt"@.len());
            } else {
                assert(q[i].0[0] != 'd');
                assert("dt"@[0] == 'd');
            }
        }
    }
    assert forall|i: int| 0 <= i < q.len() && (#[trigger] q[i]).0 == "sl"@ implies q[i].1 == req.src@ by {
        assert(q[i].0[0] == 's');
        assert(i == 1 || q[i].0 != "sl"@);
    }
    assert forall|i: int| 0 <= i < q.len() && (#[trigger] q[i]).0 == "tl"@ implies q[i].1 == req.tgt@ by {
        assert(q[i].0[0] == 't');
        assert(i == 2 || q[i].0 != "tl"@);
    }
}

/// The primary text reads the segments in order: none give the empty text, a
/// segment whose `[0]` is the string `s` adds `s` at the end, any other
/// segment adds nothing, and joining two runs of segments joins their texts.
pub proof fn law_primary_joins_segments(segs: Seq<Json>, seg: Json, more: Seq<Json>)
    ensures
        joined(seq![]) == Seq::<char>::empty(),
        forall|v: Vec<Json>, t: String| #![trigger v@[0], t@] seg == Json::Array(v) && v@.len() > 0 && v@[0] == Json::Str(t)
            ==> joined(segs.push(seg)) == joined(segs) + t@,
        !(seg matches Json::Array(v) && v@.len() > 0 && v@[0] is Str)
            ==> joined(segs.push(seg)) == joined(segs),
        joined(segs + more) == joined(segs) + joined(more),
    decreases more.len(),
{
    assert(segs.push(seg).drop_last() =~= segs);
    if more.len() > 0 {
        law_primary_joins_segments(segs, seg, more.drop_last());
        assert((segs + more).drop_last() =~= segs + more.drop_last());
        assert((segs + more).last() == more.last());
    } else {
        assert(segs + more =~= segs);
    }
}

/// The error for a response that does not read as a translation.
pub fn parse_failure() -> (e: ProviderError)
    ensures
        e@ == ProviderErrorView::Network("unexpected response from translator"@),
{
    ProviderError::Network(String::from_str("unexpected response from translator"))
}

fn primary_of(segs: &Vec<Json>) -> (r: String)
    ensures
        r@ == joined(segs@),
{
    let mut r = String::new();
    let mut i: usize = 0;
    while i < segs.len()
        invariant
            i <= segs.len(),
            r@ == joined(segs@.take(i as int)),
        decreases segs.len() - i,
    {
        assert(segs@.take(i + 1).drop_last() =~= segs@.take(i as int));
        match str_at(Some(&segs[i]), 0) {
            Some(t) => {
                r.append(t.as_str());
            },
            None => {
                assert(r@ + seq![] =~= r@);
            },
        }
        i = i + 1;
    }
    assert(segs@.take(segs.len() as int) =~= segs@);
    r
}

proof fn lemma_terms_push(r: Seq<ScoredTerm>, t: ScoredTerm)
    ensures
        terms_view(r.push(t)) == terms_view(r).push(t@),
{
    assert(terms_view(r.push(t)) =~= terms_view(r).push(t@));
}

fn score_at(e: &Json) -> (r: i64)
    ensures
        r == score_of(at(*e, 3)),
{
    match e.get(3) {
        Some(Json::Number(n)) => *n,
        _ => 0,
    }
}

fn scored_list(entries: &Vec<Json>) -> (r: Vec<ScoredTerm>)
    ensures
        terms_view(r@) == scored_terms(entries@),
{
    let mut r: Vec<ScoredTerm> = Vec::new();
    let mut i: usize = 0;
    while i < entries.len()
        invariant
            i <= entries.len(),
            terms_view(r@) == scored_terms(entries@.take(i as int)),
        decreases entries.len() - i,
    {
        assert(entries@.take(i + 1).drop_last() =~= entries@.take(i as int));
        match str_at(Some(&entries[i]), 0) {
            Some(t) => {
                let term = ScoredTerm { term: t.clone(), score: score_at(&entries[i]) };
                proof {
                    lemma_terms_push(r@, term);
                }
                r.push(term);
            },
            None => {},
        }
        i = i + 1;
    }
    assert(entries@.take(entries.len() as int) =~= entries@);
    r
}

fn plain_list(items: &Vec<Json>) -> (r: Vec<ScoredTerm>)
    ensures
        terms_view(r@) == plain_terms(items@),
{
    let mut r: Vec<ScoredTerm> = Vec::new();
    let mut i: usize = 0;
    while i < items.len()
        invariant
            i <= items.len(),
            terms_view(r@) == plain_terms(items@.take(i as int)),
        decreases items.len() - i,
    {
        assert(items@.take(i + 1).drop_last() =~= items@.take(i as int));
        match items[i].as_str() {
            Some(t) => {
                let term = ScoredTerm { term: t.clone(), score: 0 };
                proof {
                    lemma_terms_push(r@, term);
                }
                r.push(term);
            },
            None => {},
        }
        i = i + 1;
    }
    assert(items@.take(items.len() as int) =~= items@);
    r
}

fn terms_of_group(group: &Json) -> (r: Vec<ScoredTerm>)
    ensures
        terms_view(r@) == group_terms(*group),
{
    match array_at(Some(group), 2) {
        Some(scored) => scored_list(scored),
        None => match array_at(Some(group), 1) {
            Some(plain) => plain_list(plain),
            None => Vec::new(),
        },
    }
}

proof fn lemma_entries_push(r: Seq<DictEntry>, e: DictEntry)
    ensures
        entries_view(r.push(e)) == entries_view(r).push(e@),
{
    assert(entries_view(r.push(e)) =~= entries_view(r).push(e@));
}

/// `bd` block: array of `[pos, [plain terms...], [[term, [back-translations],
/// _, score?], ...], ...]`. The scored list can omit scores on tail entries.
pub fn parse_dictionary(value: Option<&Json>) -> (r: Vec<DictEntry>)
    ensures
        entries_view(r@) == dictionary(opt_deref(value)),
{
    let groups = match value {
        Some(v) => match v.as_array() {
            Some(g) => g,
            None => {
                return Vec::new();
            },
        },
        None => {
            return Vec::new();
        },
    };
    let mut r: Vec<DictEntry> = Vec::new();
    let mut i: usize = 0;
    while i < groups.len()
        invariant
            i <= groups.len(),
            arr_of(opt_deref(value)) == Some(groups@),
            entries_view(r@) == dict_groups(groups@.take(i as int)),
        decreases groups.len() - i,
    {
        assert(groups@.take(i + 1).drop_last() =~= groups@.take(i as int));
        let g = &groups[i];
        match str_at(Some(g), 0) {
            Some(pos) => {
                let terms = terms_of_group(g);
                if terms.len() > 0 {
                    let entry = DictEntry { pos: pos.clone(), terms };
                    proof {
                        lemma_entries_push(r@, entry);
                    }
                    r.push(entry);
                }
            },
            None => {},
        }
        i = i + 1;
    }
    assert(groups@.take(groups.len() as int) =~= groups@);
    r
}

fn shape_matches(g: &Json) -> (r: bool)
    ensures
        r == shape_ok(*g),
{
    if str_at(Some(g), 0).is_none() {
        return false;
    }
    match array_at(Some(g), 1) {
        Some(defs) => {
            if defs.len() == 0 {
                return false;
            }
            match defs[0].as_array() {
                Some(first) => first.len() > 0 && first[0].as_str().is_some(),
                None => false,
            }
        },
        None => false,
    }
}

fn md_block(v: &Json) -> (r: bool)
    ensures
        r == is_md_block(*v),
{
    match v {
        Json::Array(gs) => {
            if gs.len() == 0 {
                return false;
            }
            let mut i: usize = 0;
            while i < gs.len()
                invariant
                    i <= gs.len(),
                    *v == Json::Array(*gs),
                    forall|k: int| 0 <= k < i ==> shape_ok(#[trigger] gs@[k]),
                decreases gs.len() - i,
            {
                if !shape_matches(&gs[i]) {
                    assert(!shape_ok(gs@[i as int]));
                    return false;
                }
                i = i + 1;
            }
            assert(forall|k: int| 0 <= k < gs@.len() ==> shape_ok(#[trigger] gs@[k]));
            true
        },
        _ => false,
    }
}

proof fn lemma_defs_push(r: Seq<Definition>, d: Definition)
    ensures
        definitions_view(r.push(d)) == definitions_view(r).push(d@),
{
    assert(definitions_view(r.push(d)) =~= definitions_view(r).push(d@));
}

fn append_group_definitions(r: &mut Vec<Definition>, g: &Json)
    ensures
        definitions_view(final(r)@) == definitions_view(old(r)@) + group_definitions(*g),
{
    let pos: String = match str_at(Some(g), 0) {
        Some(p) => p.clone(),
        None => String::new(),
    };
    let ghost start = definitions_view(r@);
    match array_at(Some(g), 1) {
        Some(defs) => {
            let mut i: usize = 0;
            while i < defs.len()
                invariant
                    i <= defs.len(),
                    arr_of(at(*g, 1)) == Some(defs@),
                    definitions_view(r@) == start + def_texts(pos@, defs@.take(i as int)),
                decreases defs.len() - i,
            {
                assert(defs@.take(i + 1).drop_last() =~= defs@.take(i as int));
                match str_at(Some(&defs[i]), 0) {
                    Some(t) => {
                        let d = Definition { pos: pos.clone(), text: t.clone() };
                        proof {
                            lemma_defs_push(r@, d);
                            assert(start + def_texts(pos@, defs@.take(i as int)).push(d@) =~= start
                                + def_texts(pos@, defs@.take(i as int)).push(d@));
                        }
                        r.push(d);
                    },
                    None => {},
                }
                i = i + 1;
            }
            assert(defs@.take(defs.len() as int) =~= defs@);
        },
        None => {
            assert(start + seq![] =~= start);
        },
    }
}

proof fn lemma_definitions_found(root: Seq<Json>, j: int, i: int)
    requires
        0 <= j <= i < root.len(),
        is_md_block(root[i]),
        forall|h: int| j <= h < i ==> !is_md_block(#[trigger] root[h]),
    ensures
        definitions_from(root, j) == flat_definitions(root[i]->Array_0@),
    decreases i - j,
{
    if j < i {
        assert(!is_md_block(root[j]));
        lemma_definitions_found(root, j + 1, i);
    }
}

proof fn lemma_definitions_none(root: Seq<Json>, j: int)
    requires
        0 <= j,
        forall|h: int| j <= h < root.len() ==> !is_md_block(#[trigger] root[h]),
    ensures
        definitions_from(root, j) == Seq::<DefinitionView>::empty(),
    decreases root.len() - j,
{
    if j < root.len() {
        assert(!is_md_block(root[j]));
        lemma_definitions_none(root, j + 1);
    }
}

proof fn lemma_definitions_same_tail(a: Seq<Json>, b: Seq<Json>, j: int)
    requires
        0 <= j,
        a.len() == b.len(),
        forall|h: int| j <= h < a.len() ==> #[trigger] a[h] == b[h],
    ensures
        definitions_from(a, j) == definitions_from(b, j),
    decreases a.len() - j,
{
    if j < a.len() {
        assert(a[j] == b[j]);
        lemma_definitions_same_tail(a, b, j + 1);
    }
}

/// The definitions come from the first element from `[3]` on that has the
/// `md` shape, group by group in order; with no such element there are none;
/// and the first three elements never matter.
pub proof fn law_definitions_scan(root: Seq<Json>, other: Seq<Json>)
    ensures
        forall|i: int| 3 <= i < root.len() && is_md_block(#[trigger] root[i])
            && (forall|h: int| 3 <= h < i ==> !is_md_block(#[trigger] root[h]))
            ==> definitions_from(root, 3) == flat_definitions(root[i]->Array_0@),
        (forall|h: int| 3 <= h < root.len() ==> !is_md_block(#[trigger] root[h]))
            ==> definitions_from(root, 3) == Seq::<DefinitionView>::empty(),
        (other.len() == root.len() && forall|h: int| 3 <= h < root.len() ==> #[trigger] other[h] == root[h])
            ==> definitions_from(other, 3) == definitions_from(root, 3),
{
    assert forall|i: int| 3 <= i < root.len() && is_md_block(#[trigger] root[i])
        && (forall|h: int| 3 <= h < i ==> !is_md_block(#[trigger] root[h]))
        implies definitions_from(root, 3) == flat_definitions(root[i]->Array_0@) by {
        lemma_definitions_found(root, 3, i);
    }
    if forall|h: int| 3 <= h < root.len() ==> !is_md_block(#[trigger] root[h]) {
        lemma_definitions_none(root, 3);
    }
    if other.len() == root.len() && forall|h: int| 3 <= h < root.len() ==> #[trigger] other[h] == root[h] {
        lemma_definitions_same_tail(other, root, 3);
    }
}

/// `md` block: array of `[pos, [[definition, id, ...], ...], ...]`. Its index
/// varies by response, so it is found by shape among the elements from `[3]`
/// on: each group's index-1 list holds arrays whose first element is a string.
pub fn locate_definitions(root: &Vec<Json>) -> (r: Vec<Definition>)
    ensures
        definitions_view(r@) == definitions_from(root@, 3),
{
    let mut i: usize = 3;
    while i < root.len()
        invariant
            3 <= i,
            definitions_from(root@, 3) == definitions_from(root@, i as int),
        decreases root.len() - i,
    {
        if md_block(&root[i]) {
            let gs = root[i].as_array().unwrap();
            let mut r: Vec<Definition> = Vec::new();
            let mut k: usize = 0;
            while k < gs.len()
                invariant
                    k <= gs.len(),
                    definitions_view(r@) == flat_definitions(gs@.take(k as int)),
                decreases gs.len() - k,
            {
                assert(gs@.take(k + 1).drop_last() =~= gs@.take(k as int));
                append_group_definitions(&mut r, &gs[k]);
                k = k + 1;
            }
            assert(gs@.take(gs.len() as int) =~= gs@);
            return r;
        }
        i = i + 1;
    }
    Vec::new()
}

/// Read a parsed response body (`None` when the body was not JSON): `[0]`
/// sentence segments, `[1]` dictionary, `[2]` detected language; definitions
/// appear at a variable trailing index and are located by shape.
pub fn parse_response(parsed: Option<Json>, request_id: u64) -> (r: Result<Translation, ProviderError>)
    ensures
        r is Ok <==> readable(parsed),
        r matches Err(e) ==> e@ == ProviderErrorView::Network("unexpected response from translator"@),
        r matches Ok(t) ==> parsed matches Some(Json::Array(root)) && t@ == google_translation(root@, request_id),
{
    let root = match parsed {
        Some(Json::Array(root)) => root,
        _ => {
            return Err(parse_failure());
        },
    };
    let primary = match root.first() {
        Some(first) => match first.as_array() {
            Some(segs) => primary_of(segs),
            None => String::new(),
        },
        None => String::new(),
    };
    if primary.as_str().is_empty() {
        return Err(parse_failure());
    }
    let alternatives = parse_dictionary(root.get(1));
    let detected_lang = match str_at_root(&root, 2) {
        Some(code) => Some(normalize_lang(code.as_str())),
        None => None,
    };
    let definitions = locate_definitions(&root);
    Ok(Translation { request_id, primary, alternatives, definitions, detected_lang })
}

/// What a readable or unreadable body gives.
pub open spec fn google_reply(parsed: Option<Json>, request_id: u64) -> Result<TranslationView, ProviderErrorView> {
    if readable(parsed) {
        Ok(google_translation(parsed->Some_0->Array_0@, request_id))
    } else {
        Err(ProviderErrorView::Network("unexpected response from translator"@))
    }
}

/// The outcome of a Google reply with status `code`: the status's error if it
/// has one; else the error of reading the body, if that failed; else the
/// translation the body (`None` when it was not JSON) reads as.
pub fn finish_google(code: u16, body: Result<Option<Json>, ProviderError>, request_id: u64) -> (r: Result<Translation, ProviderError>)
    requires
        100 <= code <= 999,
    ensures
        outcome_view(r) == match google_status(code, status_display(code)) {
            Some(e) => Err(e),
            None => match body {
                Err(e) => Err(e@),
                Ok(parsed) => google_reply(parsed, request_id),
            },
        },
{
    if let Some(e) = status_error(code) {
        return Err(e);
    }
    match body {
        Err(e) => Err(e),
        Ok(parsed) => parse_response(parsed, request_id),
    }
}

fn str_at_root(root: &Vec<Json>, i: usize) -> (r: Option<&String>)
    ensures
        match r {
            Some(s) => str_of(elem(root@, i as int)) == Some(s@),
            None => str_of(elem(root@, i as int)) is None,
        },
{
    if i < root.len() {
        root[i].as_str()
    } else {
        None
    }
}

} // verus!
