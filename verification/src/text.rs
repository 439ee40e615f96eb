//! Character-level helpers over Unicode scalar sequences: whitespace,
//! trimming, ASCII case mapping and word counting.

use vstd::prelude::*;

verus! {

/// Unicode `White_Space`, the property behind `char::is_whitespace`.
pub open spec fn is_ws(c: char) -> bool {
    ||| ('\u{9}' <= c && c <= '\u{d}')
    ||| c == ' '
    ||| c == '\u{85}'
    ||| c == '\u{a0}'
    ||| c == '\u{1680}'
    ||| ('\u{2000}' <= c && c <= '\u{200a}')
    ||| c == '\u{2028}'
    ||| c == '\u{2029}'
    ||| c == '\u{202f}'
    ||| c == '\u{205f}'
    ||| c == '\u{3000}'
}

pub fn is_whitespace(c: char) -> (r: bool)
    ensures
        r == is_ws(c),
{
    ('\u{9}' <= c && c <= '\u{d}') || c == ' ' || c == '\u{85}' || c == '\u{a0}' || c
        == '\u{1680}' || ('\u{2000}' <= c && c <= '\u{200a}') || c == '\u{2028}' || c
        == '\u{2029}' || c == '\u{202f}' || c == '\u{205f}' || c == '\u{3000}'
}

/// `s` without its leading whitespace.
pub open spec fn trim_start(s: Seq<char>) -> Seq<char>
    decreases s.len(),
{
    if s.len() > 0 && is_ws(s[0]) {
        trim_start(s.subrange(1, s.len() as int))
    } else {
        s
    }
}

/// `s` without its trailing whitespace.
pub open spec fn trim_end(s: Seq<char>) -> Seq<char>
    decreases s.len(),
{
    if s.len() > 0 && is_ws(s[s.len() - 1]) {
        trim_end(s.subrange(0, s.len() - 1))
    } else {
        s
    }
}

/// `s` without leading and trailing whitespace, as `str::trim` gives it.
pub open spec fn trim(s: Seq<char>) -> Seq<char> {
    trim_end(trim_start(s))
}

/// True when every character of `s` is whitespace.
pub open spec fn all_ws(s: Seq<char>) -> bool {
    forall|i: int| 0 <= i < s.len() ==> is_ws(#[trigger] s[i])
}

pub open spec fn lower(c: char) -> char {
    if 'A' <= c && c <= 'Z' {
        ((c as u32) + 32) as char
    } else {
        c
    }
}

pub open spec fn upper(c: char) -> char {
    if 'a' <= c && c <= 'z' {
        ((c as u32) - 32) as char
    } else {
        c
    }
}

/// `str::to_ascii_lowercase`.
pub open spec fn ascii_lower(s: Seq<char>) -> Seq<char> {
    s.map_values(|c: char| lower(c))
}

/// `str::to_ascii_uppercase`.
pub open spec fn ascii_upper(s: Seq<char>) -> Seq<char> {
    s.map_values(|c: char| upper(c))
}

/// Number of maximal runs of non-whitespace characters in the first `n`
/// characters of `s`: what `split_whitespace().count()` gives on that prefix.
pub open spec fn words_in(s: Seq<char>, n: int) -> nat
    decreases n,
{
    if n <= 0 {
        0
    } else {
        let starts = !is_ws(s[n - 1]) && (n == 1 || is_ws(s[n - 2]));
        words_in(s, n - 1) + if starts {
            1nat
        } else {
            0nat
        }
    }
}

pub open spec fn word_count(s: Seq<char>) -> nat {
    words_in(s, s.len() as int)
}

pub fn lower_char(c: char) -> (r: char)
    ensures
        r == lower(c),
{
    if 'A' <= c && c <= 'Z' {
        let b: u8 = c as u8;
        (b + 32) as char
    } else {
        c
    }
}

pub fn upper_char(c: char) -> (r: char)
    ensures
        r == upper(c),
{
    if 'a' <= c && c <= 'z' {
        let b: u8 = c as u8;
        (b - 32) as char
    } else {
        c
    }
}

/// The characters of `s`, in order.
pub fn chars_of(s: &str) -> (r: Vec<char>)
    ensures
        r@ == s@,
{
    let mut r: Vec<char> = Vec::new();
    for c in it: s.chars()
        invariant
            r@ == it.seq().take(it.index() as int),
    {
        r.push(c);
    }
    r
}

/// Appends one character: `String::push`.
#[verifier::external_body]
fn push_char(s: &mut String, c: char)
    ensures
        final(s)@ == old(s)@.push(c),
{
    s.push(c);
}

/// The string made of the characters `v[from..to]`.
pub fn string_from(v: &Vec<char>, from: usize, to: usize) -> (r: String)
    requires
        from <= to <= v.len(),
    ensures
        r@ == v@.subrange(from as int, to as int),
{
    let mut r = String::new();
    let mut i = from;
    while i < to
        invariant
            from <= i <= to <= v.len(),
            r@ == v@.subrange(from as int, i as int),
        decreases to - i,
    {
        push_char(&mut r, v[i]);
        assert(v@.subrange(from as int, i + 1) =~= v@.subrange(from as int, i as int).push(v@[i as int]));
        i = i + 1;
    }
    r
}

/// A copy of `s`.
pub fn to_owned(s: &str) -> (r: String)
    ensures
        r@ == s@,
{
    s.to_owned()
}

pub proof fn lemma_trim_start_skip(s: Seq<char>, i: int)
    requires
        0 <= i <= s.len(),
        forall|k: int| 0 <= k < i ==> is_ws(#[trigger] s[k]),
    ensures
        trim_start(s) == trim_start(s.subrange(i, s.len() as int)),
    decreases i,
{
    if i > 0 {
        assert(s.subrange(1, s.len() as int).subrange(i - 1, s.len() - 1) =~= s.subrange(
            i,
            s.len() as int,
        ));
        lemma_trim_start_skip(s.subrange(1, s.len() as int), i - 1);
    } else {
        assert(s.subrange(0, s.len() as int) =~= s);
    }
}

pub proof fn lemma_trim_end_cut(s: Seq<char>, j: int)
    requires
        0 <= j <= s.len(),
        forall|k: int| j <= k < s.len() ==> is_ws(#[trigger] s[k]),
    ensures
        trim_end(s) == trim_end(s.subrange(0, j)),
    decreases s.len() - j,
{
    if j < s.len() {
        assert(s.subrange(0, s.len() - 1).subrange(0, j) =~= s.subrange(0, j));
        lemma_trim_end_cut(s.subrange(0, s.len() - 1), j);
    } else {
        assert(s.subrange(0, j) =~= s);
    }
}

/// `trim_start` removes a prefix; what is left starts with a non-space.
pub proof fn lemma_trim_start_shape(s: Seq<char>)
    ensures
        trim_start(s).len() <= s.len(),
        trim_start(s) == s.subrange(s.len() - trim_start(s).len(), s.len() as int),
        trim_start(s).len() > 0 ==> !is_ws(trim_start(s)[0]),
    decreases s.len(),
{
    if s.len() > 0 && is_ws(s[0]) {
        let t = s.subrange(1, s.len() as int);
        lemma_trim_start_shape(t);
        assert(t.subrange(t.len() - trim_start(t).len(), t.len() as int) =~= s.subrange(
            s.len() - trim_start(t).len(),
            s.len() as int,
        ));
    } else {
        assert(s.subrange(0, s.len() as int) =~= s);
    }
}

/// `trim_end` keeps a prefix; what is left ends with a non-space.
pub proof fn lemma_trim_end_shape(s: Seq<char>)
    ensures
        trim_end(s).len() <= s.len(),
        trim_end(s) == s.subrange(0, trim_end(s).len() as int),
        trim_end(s).len() > 0 ==> !is_ws(trim_end(s)[trim_end(s).len() - 1]),
    decreases s.len(),
{
    if s.len() > 0 && is_ws(s[s.len() - 1]) {
        let t = s.subrange(0, s.len() - 1);
        lemma_trim_end_shape(t);
        assert(t.subrange(0, trim_end(t).len() as int) =~= s.subrange(0, trim_end(t).len() as int));
    } else {
        assert(s.subrange(0, s.len() as int) =~= s);
    }
}

/// A trimmed text neither starts nor ends with whitespace.
pub proof fn lemma_trim_ends(s: Seq<char>)
    ensures
        trim(s).len() > 0 ==> !is_ws(trim(s)[0]) && !is_ws(trim(s)[trim(s).len() - 1]),
{
    let a = trim_start(s);
    lemma_trim_start_shape(s);
    lemma_trim_end_shape(a);
    if trim(s).len() > 0 {
        assert(trim(s)[0] == a[0]);
    }
}

/// A text that neither starts nor ends with whitespace is its own trim.
pub proof fn lemma_trim_fixed(s: Seq<char>)
    requires
        s.len() > 0 ==> !is_ws(s[0]) && !is_ws(s[s.len() - 1]),
    ensures
        trim(s) == s,
{
}

/// Trimming twice is trimming once.
pub proof fn lemma_trim_idempotent(s: Seq<char>)
    ensures
        trim(trim(s)) == trim(s),
{
    lemma_trim_ends(s);
    lemma_trim_fixed(trim(s));
}

/// Lowercasing keeps whitespace and non-whitespace where they were.
pub proof fn lemma_lower_ws(c: char)
    ensures
        is_ws(lower(c)) == is_ws(c),
{
}

/// Trimming then lowercasing gives a text that trimming and lowercasing
/// leave unchanged.
pub proof fn lemma_lower_trim_fixed(s: Seq<char>)
    ensures
        trim(ascii_lower(trim(s))) == ascii_lower(trim(s)),
        ascii_lower(ascii_lower(trim(s))) == ascii_lower(trim(s)),
{
    let t = trim(s);
    let l = ascii_lower(t);
    lemma_trim_ends(s);
    if l.len() > 0 {
        lemma_lower_ws(t[0]);
        lemma_lower_ws(t[t.len() - 1]);
    }
    lemma_trim_fixed(l);
    assert(ascii_lower(l) =~= l);
}

/// Bounds `(i, j)` such that `trim(v) == v[i..j]`.
pub fn trim_bounds(v: &Vec<char>) -> (r: (usize, usize))
    ensures
        r.0 <= r.1 <= v.len(),
        trim(v@) == v@.subrange(r.0 as int, r.1 as int),
        forall|k: int| 0 <= k < r.0 ==> is_ws(#[trigger] v@[k]),
        forall|k: int| r.1 <= k < v.len() ==> is_ws(#[trigger] v@[k]),
        r.0 < r.1 ==> !is_ws(v@[r.0 as int]) && !is_ws(v@[r.1 - 1]),
{
    let n = v.len();
    let mut i: usize = 0;
    while i < n && is_whitespace(v[i])
        invariant
            i <= n == v.len(),
            forall|k: int| 0 <= k < i ==> is_ws(#[trigger] v@[k]),
        decreases n - i,
    {
        i = i + 1;
    }
    let mut j: usize = n;
    while j > i && is_whitespace(v[j - 1])
        invariant
            i <= j <= n == v.len(),
            forall|k: int| j <= k < n ==> is_ws(#[trigger] v@[k]),
        decreases j,
    {
        j = j - 1;
    }
    proof {
        lemma_trim_start_skip(v@, i as int);
        let t = v@.subrange(i as int, n as int);
        if i < n {
            assert(!is_ws(t[0]));
        }
        assert(trim_start(t) == t);
        assert forall|k: int| (j - i) <= k < t.len() implies is_ws(#[trigger] t[k]) by {
            assert(t[k] == v@[i + k]);
        }
        lemma_trim_end_cut(t, (j - i) as int);
        let u = t.subrange(0, (j - i) as int);
        assert(u =~= v@.subrange(i as int, j as int));
        if j > i {
            assert(!is_ws(u[u.len() - 1]));
        }
        assert(trim_end(u) == u);
    }
    (i, j)
}

/// `s.trim()`, as its characters.
pub fn trimmed(s: &str) -> (r: Vec<char>)
    ensures
        r@ == trim(s@),
{
    let v = chars_of(s);
    let (i, j) = trim_bounds(&v);
    let mut r: Vec<char> = Vec::new();
    let mut k = i;
    while k < j
        invariant
            i <= k <= j <= v.len(),
            r@ == v@.subrange(i as int, k as int),
        decreases j - k,
    {
        r.push(v[k]);
        assert(v@.subrange(i as int, k + 1) =~= v@.subrange(i as int, k as int).push(v@[k as int]));
        k = k + 1;
    }
    r
}

/// True when `s.trim()` is empty.
pub fn is_blank(s: &str) -> (r: bool)
    ensures
        r == (trim(s@).len() == 0),
        r == all_ws(s@),
{
    let v = chars_of(s);
    let (i, j) = trim_bounds(&v);
    proof {
        if i == j {
            assert forall|k: int| 0 <= k < v@.len() implies is_ws(#[trigger] v@[k]) by {}
        } else {
            assert(!is_ws(v@[i as int]));
        }
    }
    i == j
}

/// The ASCII-lowercased copy of `v`.
pub fn lowered(v: &Vec<char>) -> (r: Vec<char>)
    ensures
        r@ == ascii_lower(v@),
{
    let mut r: Vec<char> = Vec::new();
    let mut k: usize = 0;
    while k < v.len()
        invariant
            k <= v.len(),
            r@ == ascii_lower(v@.subrange(0, k as int)),
        decreases v.len() - k,
    {
        r.push(lower_char(v[k]));
        assert(ascii_lower(v@.subrange(0, k + 1)) =~= ascii_lower(v@.subrange(0, k as int)).push(
            lower(v@[k as int]),
        ));
        k = k + 1;
    }
    assert(v@.subrange(0, v.len() as int) =~= v@);
    r
}

/// The ASCII-uppercased copy of `v`.
pub fn uppered(v: &Vec<char>) -> (r: Vec<char>)
    ensures
        r@ == ascii_upper(v@),
{
    let mut r: Vec<char> = Vec::new();
    let mut k: usize = 0;
    while k < v.len()
        invariant
            k <= v.len(),
            r@ == ascii_upper(v@.subrange(0, k as int)),
        decreases v.len() - k,
    {
        r.push(upper_char(v[k]));
        assert(ascii_upper(v@.subrange(0, k + 1)) =~= ascii_upper(v@.subrange(0, k as int)).push(
            upper(v@[k as int]),
        ));
        k = k + 1;
    }
    assert(v@.subrange(0, v.len() as int) =~= v@);
    r
}

/// Equality of two character sequences.
pub fn same_chars(a: &Vec<char>, b: &Vec<char>) -> (r: bool)
    ensures
        r == (a@ == b@),
{
    if a.len() != b.len() {
        return false;
    }
    let mut k: usize = 0;
    while k < a.len()
        invariant
            k <= a.len() == b.len(),
            forall|m: int| 0 <= m < k ==> a@[m] == b@[m],
        decreases a.len() - k,
    {
        if a[k] != b[k] {
            return false;
        }
        k = k + 1;
    }
    assert(a@ =~= b@);
    true
}

/// Number of whitespace-separated words in `v`.
pub fn count_words(v: &Vec<char>) -> (r: usize)
    ensures
        r == word_count(v@),
{
    let mut count: usize = 0;
    let mut k: usize = 0;
    while k < v.len()
        invariant
            k <= v.len(),
            count == words_in(v@, k as int),
            count <= k,
        decreases v.len() - k,
    {
        let starts = !is_whitespace(v[k]) && (k == 0 || is_whitespace(v[k - 1]));
        if starts {
            count = count + 1;
        }
        k = k + 1;
    }
    count
}

/// The decimal digit for `d < 10`.
pub open spec fn digit(d: nat) -> char {
    ((48 + d) as u32) as char
}

/// Decimal rendering of `n`, as `Display` for integers gives it.
pub open spec fn decimal(n: nat) -> Seq<char>
    decreases n,
{
    if n < 10 {
        seq![digit(n)]
    } else {
        decimal(n / 10).push(digit(n % 10))
    }
}

fn digit_char(d: u64) -> (r: char)
    requires
        d < 10,
    ensures
        r == digit(d as nat),
{
    let b: u8 = 48 + (d as u8);
    b as char
}

/// `n.to_string()`.
pub fn decimal_string(n: u64) -> (r: String)
    ensures
        r@ == decimal(n as nat),
    decreases n,
{
    if n < 10 {
        let mut s = String::new();
        push_char(&mut s, digit_char(n));
        s
    } else {
        let mut s = decimal_string(n / 10);
        push_char(&mut s, digit_char(n % 10));
        s
    }
}

/// True when the characters of `s` are exactly `lit`.
pub fn equals(s: &str, lit: &Vec<char>) -> (r: bool)
    ensures
        r == (s@ == lit@),
{
    let v = chars_of(s);
    same_chars(&v, lit)
}

/// The characters "auto".
pub open spec fn auto_code() -> Seq<char> {
    seq!['a', 'u', 't', 'o']
}

/// True when `s` is exactly "auto".
pub fn is_auto(s: &str) -> (r: bool)
    ensures
        r == (s@ == auto_code()),
{
    let mut lit: Vec<char> = Vec::new();
    lit.push('a');
    lit.push('u');
    lit.push('t');
    lit.push('o');
    assert(lit@ =~= auto_code());
    equals(s, &lit)
}

/// The string "auto".
pub fn auto_string() -> (r: String)
    ensures
        r@ == auto_code(),
{
    let mut lit: Vec<char> = Vec::new();
    lit.push('a');
    lit.push('u');
    lit.push('t');
    lit.push('o');
    assert(lit@ =~= auto_code());
    string_from(&lit, 0, 4)
}

} // verus!
