//! Character-level helpers shared by the parsers and formatters.
//!
//! Strings are handled as sequences of `char`s: `s@` is the sequence of
//! characters of `s`, and every search, trim and split here is stated over it.
use vstd::prelude::*;
use vstd::string::StringExecFns;

verus! {

broadcast use vstd::string::group_string_axioms;

// ---------------------------------------------------------------------------
// Specifications
// ---------------------------------------------------------------------------

/// `p` occurs in `t` starting at index `i`.
pub open spec fn occurs_at(t: Seq<char>, p: Seq<char>, i: int) -> bool {
    0 <= i && i + p.len() <= t.len() && t.subrange(i, i + p.len()) == p
}

/// `t` starts with `p`.
pub open spec fn starts_with(t: Seq<char>, p: Seq<char>) -> bool {
    occurs_at(t, p, 0)
}

/// `t` ends with `p`.
pub open spec fn ends_with(t: Seq<char>, p: Seq<char>) -> bool {
    p.len() <= t.len() && occurs_at(t, p, t.len() - p.len())
}

/// `p` occurs somewhere in `t`.
pub open spec fn contains_seq(t: Seq<char>, p: Seq<char>) -> bool {
    exists|i: int| occurs_at(t, p, i)
}

/// Index of the first occurrence of `p` in `t` at or after `from`.
pub open spec fn find_from(t: Seq<char>, p: Seq<char>, from: int) -> Option<int>
    decreases t.len() + 1 - from,
{
    if from < 0 || from + p.len() > t.len() {
        None
    } else if occurs_at(t, p, from) {
        Some(from)
    } else {
        find_from(t, p, from + 1)
    }
}

/// Index of the first occurrence of the character `c` in `t` at or after `from`.
pub open spec fn find_char_from(t: Seq<char>, c: char, from: int) -> Option<int>
    decreases t.len() - from,
{
    if from < 0 || from >= t.len() {
        None
    } else if t[from] == c {
        Some(from)
    } else {
        find_char_from(t, c, from + 1)
    }
}

/// Index of the first occurrence of `c` in `t`.
pub open spec fn find_char(t: Seq<char>, c: char) -> Option<int> {
    find_char_from(t, c, 0)
}

/// The Unicode `White_Space` characters, as `char::is_whitespace` documents them.
pub open spec fn is_ws(c: char) -> bool {
    ||| ('\u{9}' <= c && c <= '\u{d}')
    ||| c == ' '
    ||| c == '\u{85}'
    ||| c == '\u{a0}'
    ||| c == '\u{1680}'
    ||| ('\u{2000}' <= c && c <= '\u{200a}')
    ||| c == '\u{2028}'
    ||| c == '\u{2029}'
    ||| c == '\u{202f}'
    ||| c == '\u{205f}'
    ||| c == '\u{3000}'
}

/// Number of leading whitespace characters of `t` at or after `from`.
pub open spec fn ws_prefix_end(t: Seq<char>, from: int) -> int
    decreases t.len() - from,
{
    if from < 0 || from >= t.len() {
        if from < 0 { 0 } else { t.len() as int }
    } else if is_ws(t[from]) {
        ws_prefix_end(t, from + 1)
    } else {
        from
    }
}

/// Index just past the last non-whitespace character of `t.take(to)`.
pub open spec fn ws_suffix_start(t: Seq<char>, to: int) -> int
    decreases to,
{
    if to <= 0 {
        0
    } else if is_ws(t[to - 1]) {
        ws_suffix_start(t, to - 1)
    } else {
        to
    }
}

/// `t` with leading and trailing whitespace removed (`str::trim`).
pub open spec fn trim(t: Seq<char>) -> Seq<char> {
    let a = ws_prefix_end(t, 0);
    let b = ws_suffix_start(t, t.len() as int);
    if a < b { t.subrange(a, b) } else { Seq::empty() }
}

/// `t` with leading whitespace removed (`str::trim_start`).
pub open spec fn trim_start(t: Seq<char>) -> Seq<char> {
    t.skip(ws_prefix_end(t, 0))
}

/// ASCII lowercase of one character (`char::to_ascii_lowercase`).
pub open spec fn ascii_lower(c: char) -> char {
    if 'A' <= c && c <= 'Z' {
        ((c as u32) + 32) as char
    } else {
        c
    }
}

/// The ASCII lower-case form of a character.
pub fn to_ascii_lowercase(c: char) -> (r: char)
    ensures
        r == ascii_lower(c),
{
    if 'A' <= c && c <= 'Z' {
        let b: u8 = c as u8;
        assert(b as int == c as int);
        ((b + 32) as u8) as char
    } else {
        c
    }
}

/// `char::is_ascii_alphabetic`.
pub open spec fn is_ascii_alpha(c: char) -> bool {
    ('a' <= c && c <= 'z') || ('A' <= c && c <= 'Z')
}

/// `char::is_ascii_digit`.
pub open spec fn is_digit(c: char) -> bool {
    '0' <= c && c <= '9'
}

/// The parts joined by `sep`.
pub open spec fn spec_join(parts: Seq<Seq<char>>, sep: Seq<char>) -> Seq<char>
    decreases parts.len(),
{
    if parts.len() == 0 {
        Seq::empty()
    } else if parts.len() == 1 {
        parts[0]
    } else {
        spec_join(parts.drop_last(), sep) + sep + parts.last()
    }
}

// ---------------------------------------------------------------------------
// Lemmas
// ---------------------------------------------------------------------------

/// Where a search for a pattern finds it.
pub proof fn lemma_find_from_bounds(t: Seq<char>, p: Seq<char>, from: int)
    ensures
        find_from(t, p, from) matches Some(j) ==> from <= j && j + p.len() <= t.len() && occurs_at(t, p, j),
    decreases t.len() + 1 - from,
{
    if !(from < 0 || from + p.len() > t.len()) && !occurs_at(t, p, from) {
        lemma_find_from_bounds(t, p, from + 1);
    }
}

pub proof fn lemma_find_char_from_bounds(t: Seq<char>, c: char, from: int)
    ensures
        find_char_from(t, c, from) matches Some(j) ==> from <= j < t.len() && t[j] == c
            && forall|k: int| from <= k < j ==> t[k] != c,
        find_char_from(t, c, from) is None ==> forall|k: int|
            0 <= from <= k < t.len() ==> t[k] != c,
    decreases t.len() - from,
{
    if from >= 0 && from < t.len() && t[from] != c {
        lemma_find_char_from_bounds(t, c, from + 1);
    }
}

pub proof fn lemma_ws_prefix_end(t: Seq<char>, from: int)
    requires
        0 <= from <= t.len(),
    ensures
        from <= ws_prefix_end(t, from) <= t.len(),
        forall|k: int| from <= k < ws_prefix_end(t, from) ==> is_ws(t[k]),
        ws_prefix_end(t, from) < t.len() ==> !is_ws(t[ws_prefix_end(t, from)]),
    decreases t.len() - from,
{
    if from < t.len() && is_ws(t[from]) {
        lemma_ws_prefix_end(t, from + 1);
    }
}

pub proof fn lemma_ws_suffix_start(t: Seq<char>, to: int)
    requires
        0 <= to <= t.len(),
    ensures
        0 <= ws_suffix_start(t, to) <= to,
        forall|k: int| ws_suffix_start(t, to) <= k < to ==> is_ws(t[k]),
        ws_suffix_start(t, to) > 0 ==> !is_ws(t[ws_suffix_start(t, to) - 1]),
    decreases to,
{
    if to > 0 && is_ws(t[to - 1]) {
        lemma_ws_suffix_start(t, to - 1);
    }
}

/// Trimming a trimmed text changes nothing.
pub proof fn lemma_trim_idempotent(t: Seq<char>)
    ensures
        trim(trim(t)) == trim(t),
{
    let a = ws_prefix_end(t, 0);
    let b = ws_suffix_start(t, t.len() as int);
    lemma_ws_prefix_end(t, 0);
    lemma_ws_suffix_start(t, t.len() as int);
    let u = trim(t);
    if a < b {
        assert(u[0] == t[a]);
        assert(u[u.len() - 1] == t[b - 1]);
        assert(ws_prefix_end(u, 0) == 0);
        assert(ws_suffix_start(u, u.len() as int) == u.len());
        assert(u.subrange(0, u.len() as int) =~= u);
    } else {
        assert(u.len() == 0);
        assert(ws_prefix_end(u, 0) == 0);
        assert(ws_suffix_start(u, 0) == 0);
    }
}

/// The characters of `trim(t)` are characters of `t`.
pub proof fn lemma_trim_chars(t: Seq<char>, k: int)
    requires
        0 <= k < trim(t).len(),
    ensures
        exists|j: int| 0 <= j < t.len() && t[j] == #[trigger] trim(t)[k],
{
    let a = ws_prefix_end(t, 0);
    let b = ws_suffix_start(t, t.len() as int);
    lemma_ws_prefix_end(t, 0);
    lemma_ws_suffix_start(t, t.len() as int);
    assert(trim(t)[k] == t[a + k]);
}

/// Where `p` occurs nowhere from `from` on, it is not found.
pub proof fn lemma_find_from_absent(t: Seq<char>, p: Seq<char>, from: int)
    requires
        forall|i: int| from <= i ==> !occurs_at(t, p, i),
    ensures
        find_from(t, p, from) is None,
    decreases t.len() + 1 - from,
{
    if !(from < 0 || from + p.len() > t.len()) {
        lemma_find_from_absent(t, p, from + 1);
    }
}

/// Where `p` first occurs at `k`, from `from` on, it is found there.
pub proof fn lemma_find_from_first(t: Seq<char>, p: Seq<char>, from: int, k: int)
    requires
        0 <= from <= k,
        occurs_at(t, p, k),
        forall|i: int| from <= i < k ==> !occurs_at(t, p, i),
    ensures
        find_from(t, p, from) == Some(k),
    decreases k - from,
{
    if from < k {
        lemma_find_from_first(t, p, from + 1, k);
    }
}

// ---------------------------------------------------------------------------
// Conversions between strings and character vectors
// ---------------------------------------------------------------------------

/// The characters of a string slice, in order.
pub fn chars_of(s: &str) -> (v: Vec<char>)
    ensures
        v@ == s@,
{
    let mut v: Vec<char> = Vec::new();
    for c in it: s.chars()
        invariant
            v@ == it.seq().take(it.index()),
            it.seq() == s@,
    {
        v.push(c);
    }
    v
}

/// Appends one character to a `String` (`String::push`).
#[verifier::external_body]
pub(crate) fn push_char(s: &mut String, c: char)
    ensures
        final(s)@ == old(s)@.push(c),
{
    s.push(c);
}

/// Appends a string slice to a `String`.
pub fn push_str(s: &mut String, t: &str)
    ensures
        final(s)@ == old(s)@ + t@,
{
    s.append(t);
}

/// Appends the characters `v[from..to]` to `s`.
pub fn push_chars(s: &mut String, v: &Vec<char>, from: usize, to: usize)
    requires
        from <= to <= v@.len(),
    ensures
        final(s)@ == old(s)@ + v@.subrange(from as int, to as int),
{
    let mut i = from;
    while i < to
        invariant
            from <= i <= to <= v@.len(),
            s@ == old(s)@ + v@.subrange(from as int, i as int),
        decreases to - i,
    {
        push_char(s, v[i]);
        assert(v@.subrange(from as int, i + 1) == v@.subrange(from as int, i as int).push(v@[i as int]));
        i += 1;
    }
}

/// A `String` holding the characters `v[from..to]`.
pub fn string_of_range(v: &Vec<char>, from: usize, to: usize) -> (s: String)
    requires
        from <= to <= v@.len(),
    ensures
        s@ == v@.subrange(from as int, to as int),
{
    let mut s = String::new();
    push_chars(&mut s, v, from, to);
    s
}

/// A `String` holding all characters of `v`.
pub fn string_of(v: &Vec<char>) -> (s: String)
    ensures
        s@ == v@,
{
    let s = string_of_range(v, 0, v.len());
    assert(v@.subrange(0, v@.len() as int) == v@);
    s
}

/// A copy of a string slice as an owned `String`.
pub fn to_owned_string(s: &str) -> (r: String)
    ensures
        r@ == s@,
{
    String::from_str(s)
}

/// A copy of a `String`.
pub fn clone_string(s: &String) -> (r: String)
    ensures
        r@ == s@,
{
    s.clone()
}

/// `a@ == b@`, decided character by character.
pub fn seq_eq(a: &Vec<char>, b: &Vec<char>) -> (r: bool)
    ensures
        r == (a@ == b@),
{
    if a.len() != b.len() {
        return false;
    }
    let mut i: usize = 0;
    while i < a.len()
        invariant
            a@.len() == b@.len(),
            0 <= i <= a@.len(),
            forall|k: int| 0 <= k < i ==> a@[k] == b@[k],
        decreases a.len() - i,
    {
        if a[i] != b[i] {
            return false;
        }
        i += 1;
    }
    assert(a@ =~= b@);
    true
}

/// Two string slices hold the same characters.
pub fn str_eq(a: &str, b: &str) -> (r: bool)
    ensures
        r == (a@ == b@),
{
    let va = chars_of(a);
    let vb = chars_of(b);
    seq_eq(&va, &vb)
}

// ---------------------------------------------------------------------------
// Searching
// ---------------------------------------------------------------------------

/// Whether `p` occurs in `t` at index `i`.
pub fn occurs_at_exec(t: &Vec<char>, p: &Vec<char>, i: usize) -> (r: bool)
    ensures
        r == occurs_at(t@, p@, i as int),
{
    if i > t.len() || p.len() > t.len() - i {
        return false;
    }
    let mut k: usize = 0;
    while k < p.len()
        invariant
            i + p@.len() <= t@.len(),
            0 <= k <= p@.len(),
            forall|j: int| 0 <= j < k ==> t@[i + j] == p@[j],
        decreases p.len() - k,
    {
        assert(i + k < t.len());
        if t[i + k] != p[k] {
            assert(t@.subrange(i as int, i + p@.len())[k as int] != p@[k as int]);
            return false;
        }
        k += 1;
    }
    assert(t@.subrange(i as int, i + p@.len()) =~= p@);
    true
}

/// The first occurrence of the character `c` in `t` at or after `from`.
pub fn find_char_from_exec(t: &Vec<char>, c: char, from: usize) -> (r: Option<usize>)
    ensures
        r matches Some(j) ==> find_char_from(t@, c, from as int) == Some(j as int),
        r is None ==> find_char_from(t@, c, from as int) is None,
{
    let mut j = from;
    while j < t.len()
        invariant
            from <= j,
            find_char_from(t@, c, from as int) == find_char_from(t@, c, j as int),
        decreases t.len() - j,
    {
        if t[j] == c {
            return Some(j);
        }
        j += 1;
    }
    None
}

/// The first occurrence of `p` in `t` at or after `from`.
pub fn find_from_exec(t: &Vec<char>, p: &Vec<char>, from: usize) -> (r: Option<usize>)
    ensures
        r matches Some(j) ==> find_from(t@, p@, from as int) == Some(j as int),
        r is None ==> find_from(t@, p@, from as int) is None,
{
    if from > t.len() {
        return None;
    }
    if p.len() == 0 {
        assert(occurs_at(t@, p@, from as int)) by {
            assert(t@.subrange(from as int, from as int) =~= p@);
        }
        return Some(from);
    }
    let mut j = from;
    while p.len() <= t.len() - j
        invariant
            from <= j <= t@.len(),
            p@.len() > 0,
            find_from(t@, p@, from as int) == find_from(t@, p@, j as int),
        decreases t.len() - j,
    {
        if occurs_at_exec(t, p, j) {
            return Some(j);
        }
        j += 1;
    }
    None
}

/// Whether `t` starts with `p`.
pub fn starts_with_exec(t: &Vec<char>, p: &Vec<char>) -> (r: bool)
    ensures
        r == starts_with(t@, p@),
{
    occurs_at_exec(t, p, 0)
}

/// Whether `t` ends with `p`.
pub fn ends_with_exec(t: &Vec<char>, p: &Vec<char>) -> (r: bool)
    ensures
        r == ends_with(t@, p@),
{
    if p.len() > t.len() {
        false
    } else {
        occurs_at_exec(t, p, t.len() - p.len())
    }
}

/// Whether `p` occurs anywhere in `t`.
pub fn contains_exec(t: &Vec<char>, p: &Vec<char>) -> (r: bool)
    ensures
        r == contains_seq(t@, p@),
{
    if p.len() == 0 {
        assert(occurs_at(t@, p@, 0)) by {
            assert(t@.subrange(0, 0) =~= p@);
        }
        return true;
    }
    let mut j: usize = 0;
    while p.len() <= t.len() - j
        invariant
            j <= t@.len(),
            p@.len() > 0,
            forall|k: int| 0 <= k < j ==> !occurs_at(t@, p@, k),
        decreases t.len() - j,
    {
        if occurs_at_exec(t, p, j) {
            return true;
        }
        j += 1;
    }
    assert forall|k: int| !occurs_at(t@, p@, k) by {
        if k >= j {
            assert(k + p@.len() > t@.len());
        }
    }
    false
}

/// `char::is_whitespace`.
pub fn is_ws_exec(c: char) -> (r: bool)
    ensures
        r == is_ws(c),
{
    ('\u{9}' <= c && c <= '\u{d}') || c == ' ' || c == '\u{85}' || c == '\u{a0}' || c
        == '\u{1680}' || ('\u{2000}' <= c && c <= '\u{200a}') || c == '\u{2028}' || c
        == '\u{2029}' || c == '\u{202f}' || c == '\u{205f}' || c == '\u{3000}'
}

/// The bounds `(a, b)` of `trim(t@)` inside `t`, with `a <= b`.
pub fn trim_bounds(t: &Vec<char>) -> (r: (usize, usize))
    ensures
        r.0 <= r.1 <= t@.len(),
        t@.subrange(r.0 as int, r.1 as int) == trim(t@),
        r.0 as int == ws_prefix_end(t@, 0) || r.0 == r.1,
{
    let mut a: usize = 0;
    while a < t.len() && is_ws_exec(t[a])
        invariant
            a <= t@.len(),
            ws_prefix_end(t@, 0) == ws_prefix_end(t@, a as int),
        decreases t.len() - a,
    {
        a += 1;
    }
    let mut b: usize = t.len();
    while b > 0 && is_ws_exec(t[b - 1])
        invariant
            b <= t@.len(),
            ws_suffix_start(t@, t@.len() as int) == ws_suffix_start(t@, b as int),
        decreases b,
    {
        b -= 1;
    }
    if a < b {
        (a, b)
    } else {
        (a, a)
    }
}

/// `str::trim` on a character vector.
pub fn trim_exec(t: &Vec<char>) -> (r: Vec<char>)
    ensures
        r@ == trim(t@),
{
    let (a, b) = trim_bounds(t);
    let mut r = Vec::new();
    let mut i = a;
    while i < b
        invariant
            a <= i <= b <= t@.len(),
            r@ == t@.subrange(a as int, i as int),
        decreases b - i,
    {
        r.push(t[i]);
        assert(t@.subrange(a as int, i + 1) == t@.subrange(a as int, i as int).push(t@[i as int]));
        i += 1;
    }
    r
}

/// `v[from..to]` as a new vector.
pub fn slice_vec(v: &Vec<char>, from: usize, to: usize) -> (r: Vec<char>)
    requires
        from <= to <= v@.len(),
    ensures
        r@ == v@.subrange(from as int, to as int),
{
    let mut r = Vec::new();
    let mut i = from;
    while i < to
        invariant
            from <= i <= to <= v@.len(),
            r@ == v@.subrange(from as int, i as int),
        decreases to - i,
    {
        r.push(v[i]);
        assert(v@.subrange(from as int, i + 1) == v@.subrange(from as int, i as int).push(v@[i as int]));
        i += 1;
    }
    r
}

/// Appends all of `b` to `a`.
pub fn extend_chars(a: &mut Vec<char>, b: &Vec<char>)
    ensures
        final(a)@ == old(a)@ + b@,
{
    let mut i: usize = 0;
    while i < b.len()
        invariant
            0 <= i <= b@.len(),
            a@ == old(a)@ + b@.take(i as int),
        decreases b.len() - i,
    {
        a.push(b[i]);
        assert(b@.take(i + 1) == b@.take(i as int).push(b@[i as int]));
        i += 1;
    }
    assert(b@.take(b@.len() as int) == b@);
}


// ---------------------------------------------------------------------------
// Lexicographic order
// ---------------------------------------------------------------------------

/// `a` is below `b` in lexicographic order, comparing from index `k` on.
pub open spec fn lt_from(a: Seq<char>, b: Seq<char>, k: int) -> bool
    decreases a.len() - k,
{
    if k < 0 || k >= a.len() {
        k >= 0 && k < b.len()
    } else if k >= b.len() {
        false
    } else if a[k] < b[k] {
        true
    } else if a[k] == b[k] {
        lt_from(a, b, k + 1)
    } else {
        false
    }
}

/// `a` is below `b` in lexicographic order of characters (code points), which
/// is the order `str` uses, since UTF-8 keeps the order of code points.
pub open spec fn seq_lt(a: Seq<char>, b: Seq<char>) -> bool {
    lt_from(a, b, 0)
}

/// The outcome of comparing two strings.
#[derive(PartialEq, Eq, Structural)]
pub enum Order {
    Below,
    Same,
    Above,
}

proof fn lemma_lt_from_facts(a: Seq<char>, b: Seq<char>, k: int)
    requires
        0 <= k,
        k <= a.len(),
        k <= b.len(),
        a.subrange(0, k) == b.subrange(0, k),
    ensures
        !(lt_from(a, b, k) && lt_from(b, a, k)),
        !lt_from(a, b, k) && !lt_from(b, a, k) ==> a == b,
    decreases a.len() - k,
{
    if k < a.len() && k < b.len() && a[k] == b[k] {
        assert(a.subrange(0, k + 1) == a.subrange(0, k).push(a[k]));
        assert(b.subrange(0, k + 1) == b.subrange(0, k).push(b[k]));
        lemma_lt_from_facts(a, b, k + 1);
    }
    if k == a.len() && k == b.len() {
        assert(a == a.subrange(0, k));
        assert(b == b.subrange(0, k));
    }
    if !lt_from(a, b, k) && !lt_from(b, a, k) && k < a.len() && k < b.len() {
        assert(a[k] == b[k]) by {
            assert(!(a[k] < b[k]) && !(b[k] < a[k]));
        }
    }
}

/// The lexicographic order is a strict total order.
pub proof fn lemma_seq_lt_total(a: Seq<char>, b: Seq<char>)
    ensures
        !seq_lt(a, a),
        !(seq_lt(a, b) && seq_lt(b, a)),
        a != b ==> seq_lt(a, b) || seq_lt(b, a),
{
    assert(a.subrange(0, 0) == b.subrange(0, 0));
    lemma_lt_from_facts(a, b, 0);
    assert(a.subrange(0, 0) == a.subrange(0, 0));
    lemma_lt_from_facts(a, a, 0);
}

proof fn lemma_lt_from_trans(a: Seq<char>, b: Seq<char>, c: Seq<char>, k: int)
    requires
        0 <= k,
        lt_from(a, b, k),
        lt_from(b, c, k),
    ensures
        lt_from(a, c, k),
    decreases a.len() - k,
{
    if k < a.len() && k < b.len() && k < c.len() && a[k] == b[k] && b[k] == c[k] {
        lemma_lt_from_trans(a, b, c, k + 1);
    }
}

/// The lexicographic order is transitive.
pub proof fn lemma_seq_lt_trans(a: Seq<char>, b: Seq<char>, c: Seq<char>)
    requires
        seq_lt(a, b),
        seq_lt(b, c),
    ensures
        seq_lt(a, c),
{
    lemma_lt_from_trans(a, b, c, 0);
}

/// Compares two character vectors in lexicographic order.
pub fn compare_chars(a: &Vec<char>, b: &Vec<char>) -> (r: Order)
    ensures
        (r == Order::Below) == seq_lt(a@, b@),
        (r == Order::Same) == (a@ == b@),
        (r == Order::Above) == seq_lt(b@, a@),
{
    proof {
        lemma_seq_lt_total(a@, b@);
    }
    let mut k: usize = 0;
    while k < a.len() && k < b.len()
        invariant
            k <= a@.len(),
            k <= b@.len(),
            seq_lt(a@, b@) == lt_from(a@, b@, k as int),
            seq_lt(b@, a@) == lt_from(b@, a@, k as int),
            a@.subrange(0, k as int) == b@.subrange(0, k as int),
        decreases a.len() - k,
    {
        if a[k] != b[k] {
            if a[k] < b[k] {
                return Order::Below;
            } else {
                return Order::Above;
            }
        }
        assert(a@.subrange(0, k + 1) == a@.subrange(0, k as int).push(a@[k as int]));
        assert(b@.subrange(0, k + 1) == b@.subrange(0, k as int).push(b@[k as int]));
        k += 1;
    }
    if a.len() == b.len() {
        assert(a@ == a@.subrange(0, k as int));
        assert(b@ == b@.subrange(0, k as int));
        Order::Same
    } else if a.len() < b.len() {
        Order::Below
    } else {
        Order::Above
    }
}



// ---------------------------------------------------------------------------
// Lines and words
// ---------------------------------------------------------------------------

/// `s` without one trailing carriage return.
pub open spec fn strip_cr(s: Seq<char>) -> Seq<char> {
    if s.len() > 0 && s.last() == '\r' {
        s.drop_last()
    } else {
        s
    }
}

/// The lines of `t` from index `start` on, as `str::lines` gives them: split
/// at each `\n`, a `\r` before it dropped, no empty line after a final `\n`.
pub open spec fn lines_from(t: Seq<char>, start: int) -> Seq<Seq<char>>
    decreases t.len() - start,
{
    if start < 0 || start >= t.len() {
        Seq::empty()
    } else {
        match find_char_from(t, '\n', start) {
            Some(e) => {
                if e < start || e >= t.len() {
                    Seq::empty()
                } else {
                    seq![strip_cr(t.subrange(start, e))] + lines_from(t, e + 1)
                }
            },
            None => seq![t.subrange(start, t.len() as int)],
        }
    }
}

/// The lines of `t` (`str::lines`).
pub open spec fn spec_lines(t: Seq<char>) -> Seq<Seq<char>> {
    lines_from(t, 0)
}

/// First index at or after `i` holding whitespace, or the length.
pub open spec fn ws_find_from(t: Seq<char>, i: int) -> int
    decreases t.len() - i,
{
    if i < 0 {
        0
    } else if i >= t.len() {
        t.len() as int
    } else if is_ws(t[i]) {
        i
    } else {
        ws_find_from(t, i + 1)
    }
}

/// The whitespace-separated words of `t` from index `i` on (`str::split_whitespace`).
pub open spec fn words_from(t: Seq<char>, i: int) -> Seq<Seq<char>>
    decreases t.len() - i,
{
    if i < 0 || i >= t.len() {
        Seq::empty()
    } else {
        let a = ws_prefix_end(t, i);
        if a >= t.len() || a < i {
            Seq::empty()
        } else {
            let b = ws_find_from(t, a);
            if b <= a || b > t.len() {
                Seq::empty()
            } else {
                seq![t.subrange(a, b)] + words_from(t, b)
            }
        }
    }
}

/// The whitespace-separated words of `t`.
pub open spec fn spec_words(t: Seq<char>) -> Seq<Seq<char>> {
    words_from(t, 0)
}

/// The views of a vector of character vectors.
pub open spec fn char_seqs(v: Seq<Vec<char>>) -> Seq<Seq<char>> {
    v.map_values(|x: Vec<char>| x@)
}

pub proof fn lemma_ws_find_from(t: Seq<char>, i: int)
    requires
        0 <= i <= t.len(),
    ensures
        i <= ws_find_from(t, i) <= t.len(),
        forall|k: int| i <= k < ws_find_from(t, i) ==> !is_ws(#[trigger] t[k]),
    decreases t.len() - i,
{
    if i < t.len() && !is_ws(t[i]) {
        lemma_ws_find_from(t, i + 1);
    }
}

/// The lines of `t` (`str::lines`).
pub fn lines_of(t: &Vec<char>) -> (r: Vec<Vec<char>>)
    ensures
        char_seqs(r@) == spec_lines(t@),
{
    let mut out: Vec<Vec<char>> = Vec::new();
    let mut start: usize = 0;
    while start < t.len()
        invariant
            start <= t@.len(),
            spec_lines(t@) == char_seqs(out@) + lines_from(t@, start as int),
        decreases t.len() - start,
    {
        let ghost prev = char_seqs(out@);
        proof {
            lemma_find_char_from_bounds(t@, '\n', start as int);
        }
        match find_char_from_exec(t, '\n', start) {
            Some(e) => {
                let mut line = slice_vec(t, start, e);
                if line.len() > 0 && line[line.len() - 1] == '\r' {
                    line.pop();
                }
                assert(line@ == strip_cr(t@.subrange(start as int, e as int)));
                out.push(line);
                assert(char_seqs(out@) =~= prev.push(strip_cr(t@.subrange(start as int, e as int))));
                assert(lines_from(t@, start as int) == seq![strip_cr(t@.subrange(start as int, e as int))] + lines_from(t@, e + 1));
                assert(prev + lines_from(t@, start as int) =~= char_seqs(out@) + lines_from(t@, e + 1));
                start = e + 1;
            },
            None => {
                let line = slice_vec(t, start, t.len());
                out.push(line);
                assert(char_seqs(out@) =~= prev.push(t@.subrange(start as int, t@.len() as int)));
                assert(lines_from(t@, t@.len() as int) =~= Seq::<Seq<char>>::empty());
                assert(prev + lines_from(t@, start as int) =~= char_seqs(out@) + lines_from(t@, t@.len() as int));
                start = t.len();
            },
        }
    }
    assert(char_seqs(out@) + lines_from(t@, start as int) =~= char_seqs(out@));
    out
}

/// The whitespace-separated words of `t` (`str::split_whitespace`).
pub fn words_of(t: &Vec<char>) -> (r: Vec<Vec<char>>)
    ensures
        char_seqs(r@) == spec_words(t@),
{
    let mut out: Vec<Vec<char>> = Vec::new();
    let mut i: usize = 0;
    while i < t.len()
        invariant
            i <= t@.len(),
            spec_words(t@) == char_seqs(out@) + words_from(t@, i as int),
        decreases t.len() - i,
    {
        let ghost prev = char_seqs(out@);
        proof {
            lemma_ws_prefix_end(t@, i as int);
        }
        let mut a = i;
        while a < t.len() && is_ws_exec(t[a])
            invariant
                i <= a <= t@.len(),
                ws_prefix_end(t@, i as int) == ws_prefix_end(t@, a as int),
            decreases t.len() - a,
        {
            a += 1;
        }
        if a >= t.len() {
            assert(words_from(t@, i as int) =~= Seq::<Seq<char>>::empty());
            assert(char_seqs(out@) + words_from(t@, t@.len() as int) =~= prev + words_from(t@, i as int));
            i = t.len();
        } else {
            proof {
                lemma_ws_find_from(t@, a as int);
            }
            let mut b = a;
            while b < t.len() && !is_ws_exec(t[b])
                invariant
                    a <= b <= t@.len(),
                    ws_find_from(t@, a as int) == ws_find_from(t@, b as int),
                decreases t.len() - b,
            {
                b += 1;
            }
            assert(b > a);
            let w = slice_vec(t, a, b);
            out.push(w);
            assert(char_seqs(out@) =~= prev.push(t@.subrange(a as int, b as int)));
            assert(words_from(t@, i as int) == seq![t@.subrange(a as int, b as int)] + words_from(t@, b as int));
            assert(prev + words_from(t@, i as int) =~= char_seqs(out@) + words_from(t@, b as int));
            i = b;
        }
    }
    assert(char_seqs(out@) + words_from(t@, i as int) =~= char_seqs(out@));
    out
}

/// `str::trim_start` on a character vector.
pub fn trim_start_exec(t: &Vec<char>) -> (r: Vec<char>)
    ensures
        r@ == trim_start(t@),
{
    proof {
        lemma_ws_prefix_end(t@, 0);
    }
    let mut a: usize = 0;
    while a < t.len() && is_ws_exec(t[a])
        invariant
            a <= t@.len(),
            ws_prefix_end(t@, 0) == ws_prefix_end(t@, a as int),
        decreases t.len() - a,
    {
        a += 1;
    }
    let r = slice_vec(t, a, t.len());
    assert(r@ =~= t@.skip(a as int));
    r
}

} // verus!
