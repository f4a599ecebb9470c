//! Text primitives over character sequences.
//!
//! Every operation here works on the `char`s of a string. Positions are
//! character positions: where std's `str` methods return byte offsets, the
//! offsets here are only ever used to cut the same text again, so the two
//! agree on every result that leaves this module.
use vstd::prelude::*;

verus! {

/// The view of an optional string.
pub open spec fn opt_view(o: Option<String>) -> Option<Seq<char>> {
    match o {
        Some(s) => Some(s@),
        None => None,
    }
}

/// `str::to_ascii_lowercase`.
pub open spec fn ascii_lowercase(s: Seq<char>) -> Seq<char> {
    s.map_values(|c: char| ascii_lower(c))
}

pub proof fn lemma_ascii_lower_idempotent(c: char)
    ensures
        ascii_lower(ascii_lower(c)) == ascii_lower(c),
{
}

/// `String::push` from std: appends one character at the end.
#[verifier::external_body]
fn push_char(s: &mut String, c: char)
    ensures
        final(s)@ == old(s)@.push(c),
{
    s.push(c);
}

/// The characters of `s`, in order.
pub fn chars_of(s: &str) -> (r: Vec<char>)
    ensures
        r@ == s@,
{
    let mut v: Vec<char> = Vec::new();
    for c in it: s.chars()
        invariant
            v@ == it.history(),
    {
        v.push(c);
    }
    v
}

/// A `String` holding exactly the characters `cs`.
pub fn string_of(cs: &Vec<char>) -> (r: String)
    ensures
        r@ == cs@,
{
    let mut s = String::new();
    let mut i: usize = 0;
    while i < cs.len()
        invariant
            i <= cs@.len(),
            s@ == cs@.take(i as int),
        decreases cs@.len() - i,
    {
        push_char(&mut s, cs[i]);
        i += 1;
        assert(s@ =~= cs@.take(i as int));
    }
    assert(cs@.take(cs@.len() as int) =~= cs@);
    s
}

/// The characters from position `a` up to (not including) `b`.
pub fn slice_of(s: &Vec<char>, a: usize, b: usize) -> (r: Vec<char>)
    requires
        a <= b <= s@.len(),
    ensures
        r@ == s@.subrange(a as int, b as int),
{
    let mut v: Vec<char> = Vec::new();
    let mut i: usize = a;
    while i < b
        invariant
            a <= i <= b <= s@.len(),
            v@ == s@.subrange(a as int, i as int),
        decreases b - i,
    {
        v.push(s[i]);
        i += 1;
        assert(v@ =~= s@.subrange(a as int, i as int));
    }
    v
}

/// `a` followed by `b`.
pub fn concat(a: &Vec<char>, b: &Vec<char>) -> (r: Vec<char>)
    ensures
        r@ == a@ + b@,
{
    let mut v = a.clone();
    let mut i: usize = 0;
    while i < b.len()
        invariant
            i <= b@.len(),
            v@ == a@ + b@.take(i as int),
        decreases b@.len() - i,
    {
        v.push(b[i]);
        i += 1;
        assert(v@ =~= a@ + b@.take(i as int));
    }
    assert(b@.take(b@.len() as int) =~= b@);
    v
}

/// Whether two character sequences are equal.
pub fn chars_eq(a: &Vec<char>, b: &Vec<char>) -> (r: bool)
    ensures
        r == (a@ == b@),
{
    if a.len() != b.len() {
        return false;
    }
    let mut i: usize = 0;
    while i < a.len()
        invariant
            a@.len() == b@.len(),
            i <= a@.len(),
            forall|k: int| 0 <= k < i ==> a@[k] == b@[k],
        decreases a@.len() - i,
    {
        if a[i] != b[i] {
            return false;
        }
        i += 1;
    }
    assert(a@ =~= b@);
    true
}

// ---------------------------------------------------------------------------
// Character classes

/// `char::is_whitespace`: the Unicode `White_Space` property.
pub open spec fn is_unicode_whitespace(c: char) -> bool {
    let n = c as u32;
    ||| 0x9 <= n <= 0xd
    ||| n == 0x20
    ||| n == 0x85
    ||| n == 0xa0
    ||| n == 0x1680
    ||| 0x2000 <= n <= 0x200a
    ||| n == 0x2028
    ||| n == 0x2029
    ||| n == 0x202f
    ||| n == 0x205f
    ||| n == 0x3000
}

pub open spec fn is_ascii_digit(c: char) -> bool {
    '0' as u32 <= c as u32 <= '9' as u32
}

pub open spec fn is_ascii_alphanumeric(c: char) -> bool {
    ||| is_ascii_digit(c)
    ||| 'a' as u32 <= c as u32 <= 'z' as u32
    ||| 'A' as u32 <= c as u32 <= 'Z' as u32
}

/// `char::to_ascii_lowercase`.
pub open spec fn ascii_lower(c: char) -> char {
    if 'A' as u32 <= c as u32 <= 'Z' as u32 {
        ((c as u32) + 32) as char
    } else {
        c
    }
}

/// A set of characters that the trimming operations strip.
#[derive(Clone, Copy)]
pub enum CharSet {
    /// `char::is_whitespace`, as `str::trim` uses it.
    Whitespace,
    /// One given character.
    Only(char),
    /// Carriage return, line feed, space and tab.
    LineSpace,
    /// `'0'..='9'`.
    AsciiDigit,
}

pub open spec fn in_set(set: CharSet, c: char) -> bool {
    match set {
        CharSet::Whitespace => is_unicode_whitespace(c),
        CharSet::Only(x) => c == x,
        CharSet::LineSpace => c == '\r' || c == '\n' || c == ' ' || c == '\t',
        CharSet::AsciiDigit => is_ascii_digit(c),
    }
}

pub fn is_whitespace(c: char) -> (r: bool)
    ensures
        r == is_unicode_whitespace(c),
{
    let n = c as u32;
    (0x9 <= n && n <= 0xd) || n == 0x20 || n == 0x85 || n == 0xa0 || n == 0x1680 || (0x2000
        <= n && n <= 0x200a) || n == 0x2028 || n == 0x2029 || n == 0x202f || n == 0x205f || n
        == 0x3000
}

pub fn is_digit(c: char) -> (r: bool)
    ensures
        r == is_ascii_digit(c),
{
    '0' as u32 <= c as u32 && c as u32 <= '9' as u32
}

pub fn is_alphanumeric(c: char) -> (r: bool)
    ensures
        r == is_ascii_alphanumeric(c),
{
    let n = c as u32;
    ('0' as u32 <= n && n <= '9' as u32) || ('a' as u32 <= n && n <= 'z' as u32) || ('A' as u32
        <= n && n <= 'Z' as u32)
}

pub fn to_ascii_lower(c: char) -> (r: char)
    ensures
        r == ascii_lower(c),
{
    let n = c as u32;
    if 'A' as u32 <= n && n <= 'Z' as u32 {
        let m: u32 = n + 32;
        assert(0x61 <= m <= 0x7a);
        char_from_ascii(m)
    } else {
        c
    }
}

/// The character whose code point is `n`, an ASCII code.
fn char_from_ascii(n: u32) -> (r: char)
    requires
        n < 128,
    ensures
        r == n as char,
{
    let b: u8 = n as u8;
    b as char
}

pub fn in_char_set(set: &CharSet, c: char) -> (r: bool)
    ensures
        r == in_set(*set, c),
{
    match set {
        CharSet::Whitespace => is_whitespace(c),
        CharSet::Only(x) => c == *x,
        CharSet::LineSpace => c == '\r' || c == '\n' || c == ' ' || c == '\t',
        CharSet::AsciiDigit => is_digit(c),
    }
}

// ---------------------------------------------------------------------------
// Trimming

/// How many characters at the start of `s` belong to `set`.
pub open spec fn lead_len(s: Seq<char>, set: CharSet) -> nat
    decreases s.len(),
{
    if s.len() > 0 && in_set(set, s[0]) {
        1 + lead_len(s.drop_first(), set)
    } else {
        0
    }
}

/// How many characters at the end of `s` belong to `set`.
pub open spec fn trail_len(s: Seq<char>, set: CharSet) -> nat
    decreases s.len(),
{
    if s.len() > 0 && in_set(set, s.last()) {
        1 + trail_len(s.drop_last(), set)
    } else {
        0
    }
}

/// `str::trim_start_matches` with a set of characters.
pub open spec fn trim_start_set(s: Seq<char>, set: CharSet) -> Seq<char> {
    s.skip(lead_len(s, set) as int)
}

/// `str::trim_end_matches` with a set of characters.
pub open spec fn trim_end_set(s: Seq<char>, set: CharSet) -> Seq<char> {
    s.take(s.len() - trail_len(s, set))
}

/// `str::trim_matches` with a set of characters.
pub open spec fn trim_set(s: Seq<char>, set: CharSet) -> Seq<char> {
    trim_end_set(trim_start_set(s, set), set)
}

/// `str::trim`.
pub open spec fn trim(s: Seq<char>) -> Seq<char> {
    trim_set(s, CharSet::Whitespace)
}

pub proof fn lemma_lead_len_bound(s: Seq<char>, set: CharSet)
    ensures
        lead_len(s, set) <= s.len(),
        forall|k: int| 0 <= k < lead_len(s, set) ==> in_set(set, #[trigger] s[k]),
        lead_len(s, set) < s.len() ==> !in_set(set, s[lead_len(s, set) as int]),
    decreases s.len(),
{
    if s.len() > 0 && in_set(set, s[0]) {
        lemma_lead_len_bound(s.drop_first(), set);
        assert forall|k: int| 0 <= k < lead_len(s, set) implies in_set(set, #[trigger] s[k]) by {
            if k > 0 {
                assert(s[k] == s.drop_first()[k - 1]);
            }
        }
    }
}

pub proof fn lemma_trail_len_bound(s: Seq<char>, set: CharSet)
    ensures
        trail_len(s, set) <= s.len(),
        forall|k: int| s.len() - trail_len(s, set) <= k < s.len() ==> in_set(set, #[trigger] s[k]),
        trail_len(s, set) < s.len() ==> !in_set(set, s[s.len() - trail_len(s, set) - 1]),
    decreases s.len(),
{
    if s.len() > 0 && in_set(set, s.last()) {
        lemma_trail_len_bound(s.drop_last(), set);
        assert forall|k: int| s.len() - trail_len(s, set) <= k < s.len() implies in_set(
            set,
            #[trigger] s[k],
        ) by {
            if k < s.len() - 1 {
                assert(s[k] == s.drop_last()[k]);
            }
        }
    }
}

/// A leading run that is entirely in `set` and is followed by a character
/// outside it (or by the end) is exactly the run that `lead_len` counts.
pub proof fn lemma_lead_len_exact(s: Seq<char>, set: CharSet, n: int)
    requires
        0 <= n <= s.len(),
        forall|k: int| 0 <= k < n ==> in_set(set, #[trigger] s[k]),
        n < s.len() ==> !in_set(set, s[n]),
    ensures
        lead_len(s, set) == n,
    decreases s.len(),
{
    if n > 0 {
        assert(in_set(set, s[0]));
        assert forall|k: int| 0 <= k < n - 1 implies in_set(set, #[trigger] s.drop_first()[k]) by {
            assert(s.drop_first()[k] == s[k + 1]);
        }
        if n - 1 < s.len() - 1 {
            assert(s.drop_first()[n - 1] == s[n]);
        }
        lemma_lead_len_exact(s.drop_first(), set, n - 1);
    }
}

/// A trailing run that is entirely in `set` and is preceded by a character
/// outside it (or by the start) is exactly the run that `trail_len` counts.
pub proof fn lemma_trail_len_exact(s: Seq<char>, set: CharSet, n: int)
    requires
        0 <= n <= s.len(),
        forall|k: int| s.len() - n <= k < s.len() ==> in_set(set, #[trigger] s[k]),
        n < s.len() ==> !in_set(set, s[s.len() - n - 1]),
    ensures
        trail_len(s, set) == n,
    decreases s.len(),
{
    if n > 0 {
        assert(in_set(set, s[s.len() - 1]));
        let t = s.drop_last();
        assert forall|k: int| t.len() - (n - 1) <= k < t.len() implies in_set(set, #[trigger] t[k]) by {
            assert(t[k] == s[k]);
        }
        if n - 1 < t.len() {
            assert(t[t.len() - (n - 1) - 1] == s[s.len() - n - 1]);
        }
        lemma_trail_len_exact(t, set, n - 1);
    }
}

/// The number of leading characters of `s` in `set`.
pub fn lead_count(s: &Vec<char>, set: &CharSet) -> (n: usize)
    ensures
        n == lead_len(s@, *set),
{
    let mut i: usize = 0;
    while i < s.len()
        invariant
            i <= s@.len(),
            forall|k: int| 0 <= k < i ==> in_set(*set, #[trigger] s@[k]),
        ensures
            i <= s@.len(),
            forall|k: int| 0 <= k < i ==> in_set(*set, #[trigger] s@[k]),
            i < s@.len() ==> !in_set(*set, s@[i as int]),
        decreases s@.len() - i,
    {
        if !in_char_set(set, s[i]) {
            break;
        }
        i += 1;
    }
    proof {
        lemma_lead_len_exact(s@, *set, i as int);
    }
    i
}

/// The number of trailing characters of `s` in `set`.
pub fn trail_count(s: &Vec<char>, set: &CharSet) -> (n: usize)
    ensures
        n == trail_len(s@, *set),
{
    let mut j: usize = s.len();
    while j > 0
        invariant
            j <= s@.len(),
            forall|k: int| j <= k < s@.len() ==> in_set(*set, #[trigger] s@[k]),
        ensures
            j <= s@.len(),
            forall|k: int| j <= k < s@.len() ==> in_set(*set, #[trigger] s@[k]),
            j > 0 ==> !in_set(*set, s@[j - 1]),
        decreases j,
    {
        if !in_char_set(set, s[j - 1]) {
            break;
        }
        j -= 1;
    }
    proof {
        lemma_trail_len_exact(s@, *set, s@.len() - j);
    }
    s.len() - j
}

pub fn trim_start_chars(s: &Vec<char>, set: &CharSet) -> (r: Vec<char>)
    ensures
        r@ == trim_start_set(s@, *set),
{
    let n = lead_count(s, set);
    proof {
        lemma_lead_len_bound(s@, *set);
    }
    let r = slice_of(s, n, s.len());
    assert(r@ =~= s@.skip(n as int));
    r
}

pub fn trim_end_chars(s: &Vec<char>, set: &CharSet) -> (r: Vec<char>)
    ensures
        r@ == trim_end_set(s@, *set),
{
    let n = trail_count(s, set);
    proof {
        lemma_trail_len_bound(s@, *set);
    }
    let r = slice_of(s, 0, s.len() - n);
    assert(r@ =~= s@.take(s@.len() - n));
    r
}

pub fn trim_chars(s: &Vec<char>, set: &CharSet) -> (r: Vec<char>)
    ensures
        r@ == trim_set(s@, *set),
{
    let a = trim_start_chars(s, set);
    trim_end_chars(&a, set)
}

/// `str::trim`: `s` without leading and trailing whitespace.
pub fn trim_str(s: &str) -> (r: String)
    ensures
        r@ == trim(s@),
{
    let cs = chars_of(s);
    let t = trim_chars(&cs, &CharSet::Whitespace);
    string_of(&t)
}

// ---------------------------------------------------------------------------
// Patterns

/// `p` occurs in `s` at position `i`.
pub open spec fn matches_at(s: Seq<char>, p: Seq<char>, i: int) -> bool {
    0 <= i && i + p.len() <= s.len() && s.subrange(i, i + p.len()) == p
}

/// `str::starts_with`.
pub open spec fn starts_with(s: Seq<char>, p: Seq<char>) -> bool {
    matches_at(s, p, 0)
}

/// `str::ends_with`.
pub open spec fn ends_with(s: Seq<char>, p: Seq<char>) -> bool {
    p.len() <= s.len() && matches_at(s, p, s.len() - p.len())
}

/// The first position at or after `i` where `p` occurs in `s`.
pub open spec fn find_from(s: Seq<char>, p: Seq<char>, i: int) -> Option<int>
    decreases s.len() - i,
{
    if i < 0 || i + p.len() > s.len() {
        None
    } else if matches_at(s, p, i) {
        Some(i)
    } else if i >= s.len() {
        None
    } else {
        find_from(s, p, i + 1)
    }
}

/// `str::find`: the first position where `p` occurs in `s`.
pub open spec fn find(s: Seq<char>, p: Seq<char>) -> Option<int> {
    find_from(s, p, 0)
}

/// `str::contains`.
pub open spec fn contains(s: Seq<char>, p: Seq<char>) -> bool {
    find(s, p) is Some
}

/// The last position below `k` where `p` occurs in `s`.
pub open spec fn rfind_below(s: Seq<char>, p: Seq<char>, k: int) -> Option<int>
    decreases k,
{
    if k <= 0 {
        None
    } else if matches_at(s, p, k - 1) {
        Some(k - 1)
    } else {
        rfind_below(s, p, k - 1)
    }
}

/// `str::rfind`: the last position where `p` occurs in `s`.
pub open spec fn rfind(s: Seq<char>, p: Seq<char>) -> Option<int> {
    rfind_below(s, p, s.len() - p.len() + 1)
}

pub proof fn lemma_find_from(s: Seq<char>, p: Seq<char>, i: int)
    requires
        0 <= i,
    ensures
        find_from(s, p, i) matches Some(k) ==> i <= k && matches_at(s, p, k) && forall|j: int|
            i <= j < k ==> !#[trigger] matches_at(s, p, j),
        find_from(s, p, i) is None ==> forall|j: int| i <= j ==> !#[trigger] matches_at(s, p, j),
    decreases s.len() - i,
{
    if i < 0 || i + p.len() > s.len() {
    } else if matches_at(s, p, i) {
    } else if i >= s.len() {
        assert(s.subrange(i, i + p.len()) =~= p || p.len() > 0);
    } else {
        lemma_find_from(s, p, i + 1);
    }
}

/// A position where `p` occurs, with no occurrence between `i` and it, is
/// what `find_from` returns.
pub proof fn lemma_find_from_exact(s: Seq<char>, p: Seq<char>, i: int, k: int)
    requires
        0 <= i <= k,
        matches_at(s, p, k),
        forall|j: int| i <= j < k ==> !#[trigger] matches_at(s, p, j),
    ensures
        find_from(s, p, i) == Some(k),
    decreases k - i,
{
    if i < k {
        lemma_find_from_exact(s, p, i + 1, k);
    }
}

pub proof fn lemma_rfind_below(s: Seq<char>, p: Seq<char>, k: int)
    ensures
        rfind_below(s, p, k) matches Some(j) ==> 0 <= j < k && matches_at(s, p, j) && forall|m: int|
            j < m < k ==> !#[trigger] matches_at(s, p, m),
        rfind_below(s, p, k) is None ==> forall|m: int| m < k ==> !#[trigger] matches_at(s, p, m),
    decreases k,
{
    if k <= 0 {
    } else if matches_at(s, p, k - 1) {
    } else {
        lemma_rfind_below(s, p, k - 1);
    }
}

/// Whether `p` occurs in `s` at position `i`.
pub fn matches_at_exec(s: &Vec<char>, p: &Vec<char>, i: usize) -> (r: bool)
    ensures
        r == matches_at(s@, p@, i as int),
{
    if i > s.len() || p.len() > s.len() - i {
        return false;
    }
    let n = s.len();
    let mut j: usize = 0;
    while j < p.len()
        invariant
            n == s@.len(),
            i + p@.len() <= n,
            j <= p@.len(),
            forall|k: int| 0 <= k < j ==> s@[i + k] == p@[k],
        decreases p@.len() - j,
    {
        assert(i + j < s@.len());
        if s[i + j] != p[j] {
            assert(s@.subrange(i as int, i + p@.len())[j as int] == s@[i + j]);
            return false;
        }
        j += 1;
    }
    assert(s@.subrange(i as int, i + p@.len()) =~= p@);
    true
}

pub fn starts_with_exec(s: &Vec<char>, p: &Vec<char>) -> (r: bool)
    ensures
        r == starts_with(s@, p@),
{
    matches_at_exec(s, p, 0)
}

pub fn ends_with_exec(s: &Vec<char>, p: &Vec<char>) -> (r: bool)
    ensures
        r == ends_with(s@, p@),
{
    if p.len() > s.len() {
        false
    } else {
        matches_at_exec(s, p, s.len() - p.len())
    }
}

/// The first position at or after `i` where `p` occurs in `s`.
pub fn find_from_exec(s: &Vec<char>, p: &Vec<char>, i: usize) -> (r: Option<usize>)
    ensures
        r matches Some(k) ==> find_from(s@, p@, i as int) == Some(k as int),
        r is None ==> find_from(s@, p@, i as int) is None,
{
    let mut k: usize = i;
    while k <= s.len()
        invariant
            i <= k,
            find_from(s@, p@, i as int) == find_from(s@, p@, k as int),
        decreases s@.len() + 1 - k,
    {
        if p.len() > s.len() - k {
            return None;
        }
        if matches_at_exec(s, p, k) {
            return Some(k);
        }
        if k == s.len() {
            return None;
        }
        k += 1;
    }
    None
}

/// `str::find`.
pub fn find_exec(s: &Vec<char>, p: &Vec<char>) -> (r: Option<usize>)
    ensures
        r matches Some(k) ==> find(s@, p@) == Some(k as int),
        r is None ==> find(s@, p@) is None,
{
    find_from_exec(s, p, 0)
}

/// `str::contains`.
pub fn contains_exec(s: &Vec<char>, p: &Vec<char>) -> (r: bool)
    ensures
        r == contains(s@, p@),
{
    find_exec(s, p).is_some()
}

/// `str::rfind`.
pub fn rfind_exec(s: &Vec<char>, p: &Vec<char>) -> (r: Option<usize>)
    ensures
        r matches Some(k) ==> rfind(s@, p@) == Some(k as int),
        r is None ==> rfind(s@, p@) is None,
{
    if p.len() > s.len() {
        return None;
    }
    let mut k: usize = s.len() - p.len();
    loop
        invariant
            k + p@.len() <= s@.len(),
            rfind(s@, p@) == rfind_below(s@, p@, k + 1),
        decreases k,
    {
        if matches_at_exec(s, p, k) {
            return Some(k);
        }
        if k == 0 {
            assert(rfind_below(s@, p@, 0) is None);
            return None;
        }
        k -= 1;
    }
}

// ---------------------------------------------------------------------------
// Rewriting

/// `str::trim_start_matches` with a string pattern: every leading copy of
/// `p` removed.
pub open spec fn strip_prefix_all(s: Seq<char>, p: Seq<char>) -> Seq<char>
    decreases s.len(),
{
    if p.len() > 0 && starts_with(s, p) {
        strip_prefix_all(s.skip(p.len() as int), p)
    } else {
        s
    }
}

pub fn strip_prefix_all_exec(s: &Vec<char>, p: &Vec<char>) -> (r: Vec<char>)
    ensures
        r@ == strip_prefix_all(s@, p@),
{
    if p.len() == 0 {
        return s.clone();
    }
    let n = s.len();
    let mut i: usize = 0;
    assert(s@.skip(0) =~= s@);
    loop
        invariant
            n == s@.len(),
            p@.len() > 0,
            i <= s@.len(),
            strip_prefix_all(s@, p@) == strip_prefix_all(s@.skip(i as int), p@),
        ensures
            i <= s@.len(),
            strip_prefix_all(s@, p@) == s@.skip(i as int),
        decreases s@.len() - i,
    {
        let ghost rest = s@.skip(i as int);
        if !matches_at_exec(s, p, i) {
            proof {
                if p@.len() <= rest.len() {
                    assert(rest.subrange(0, p@.len() as int) =~= s@.subrange(
                        i as int,
                        i + p@.len(),
                    ));
                }
                assert(!starts_with(rest, p@));
                assert(strip_prefix_all(rest, p@) == rest);
            }
            break;
        }
        proof {
            assert(rest.subrange(0, p@.len() as int) =~= s@.subrange(i as int, i + p@.len()));
            assert(rest.skip(p@.len() as int) =~= s@.skip(i + p@.len()));
        }
        i += p.len();
    }
    let r = slice_of(s, i, s.len());
    assert(r@ =~= s@.skip(i as int));
    r
}

/// `str::replace` with a non-empty pattern: every occurrence of `from`,
/// scanning left to right without overlap, replaced by `to`.
pub open spec fn replace_all(s: Seq<char>, from: Seq<char>, to: Seq<char>) -> Seq<char>
    decreases s.len(),
{
    if from.len() == 0 || s.len() == 0 {
        s
    } else if starts_with(s, from) {
        to + replace_all(s.skip(from.len() as int), from, to)
    } else {
        seq![s[0]] + replace_all(s.drop_first(), from, to)
    }
}

pub fn replace_exec(s: &Vec<char>, from: &Vec<char>, to: &Vec<char>) -> (r: Vec<char>)
    requires
        from@.len() > 0,
    ensures
        r@ == replace_all(s@, from@, to@),
{
    let mut out: Vec<char> = Vec::new();
    let mut i: usize = 0;
    assert(s@.skip(0) =~= s@);
    assert(out@ + s@ =~= s@);
    while i < s.len()
        invariant
            from@.len() > 0,
            i <= s@.len(),
            replace_all(s@, from@, to@) == out@ + replace_all(s@.skip(i as int), from@, to@),
        decreases s@.len() - i,
    {
        let ghost rest = s@.skip(i as int);
        proof {
            if i + from@.len() <= s@.len() {
                assert(rest.subrange(0, from@.len() as int) =~= s@.subrange(
                    i as int,
                    i + from@.len(),
                ));
            }
        }
        if matches_at_exec(s, from, i) {
            let ghost before = out@;
            proof {
                assert(rest.skip(from@.len() as int) =~= s@.skip(i + from@.len()));
            }
            out = concat(&out, to);
            i += from.len();
            proof {
                assert(before + (to@ + replace_all(s@.skip(i as int), from@, to@)) =~= out@
                    + replace_all(s@.skip(i as int), from@, to@));
            }
        } else {
            proof {
                assert(rest.drop_first() =~= s@.skip(i + 1));
            }
            let ghost before = out@;
            out.push(s[i]);
            i += 1;
            proof {
                assert(out@ + replace_all(s@.skip(i as int), from@, to@) =~= before + (seq![
                    rest[0],
                ] + replace_all(rest.drop_first(), from@, to@)));
            }
        }
    }
    assert(s@.skip(i as int) =~= Seq::<char>::empty());
    assert(out@ + Seq::<char>::empty() =~= out@);
    out
}

// ---------------------------------------------------------------------------
// Splitting and joining

/// The views of a sequence of character vectors.
pub open spec fn views(v: Seq<Vec<char>>) -> Seq<Seq<char>> {
    v.map_values(|x: Vec<char>| x@)
}

/// `str::split` on one character, from position `start` on.
pub open spec fn split_from(s: Seq<char>, c: char, start: int) -> Seq<Seq<char>>
    decreases s.len() - start,
{
    if start < 0 || start > s.len() {
        seq![]
    } else {
        match find_from(s, seq![c], start) {
            None => seq![s.subrange(start, s.len() as int)],
            Some(k) => {
                proof {
                    lemma_find_from(s, seq![c], start);
                }
                seq![s.subrange(start, k)] + split_from(s, c, k + 1)
            },
        }
    }
}

/// `str::split` on one character: the pieces between occurrences of `c`.
pub open spec fn split_char(s: Seq<char>, c: char) -> Seq<Seq<char>> {
    split_from(s, c, 0)
}

pub proof fn lemma_split_from_nonempty(s: Seq<char>, c: char, start: int)
    requires
        0 <= start <= s.len(),
    ensures
        split_from(s, c, start).len() >= 1,
{
    lemma_find_from(s, seq![c], start);
}

/// `str::split` on one character.
pub fn split_chars(s: &Vec<char>, c: char) -> (r: Vec<Vec<char>>)
    ensures
        views(r@) == split_char(s@, c),
{
    let pat: Vec<char> = vec![c];
    assert(pat@ =~= seq![c]);
    let n = s.len();
    let mut out: Vec<Vec<char>> = Vec::new();
    let mut start: usize = 0;
    assert(views(out@) + split_from(s@, c, 0) =~= split_from(s@, c, 0));
    loop
        invariant
            n == s@.len(),
            pat@ == seq![c],
            start <= n,
            views(out@) + split_from(s@, c, start as int) == split_char(s@, c),
        decreases n - start,
    {
        let ghost before = out@;
        proof {
            lemma_find_from(s@, seq![c], start as int);
        }
        match find_from_exec(s, &pat, start) {
            None => {
                let piece = slice_of(s, start, n);
                out.push(piece);
                assert(views(out@) =~= views(before).push(piece@));
                assert(views(out@) + Seq::<Seq<char>>::empty() =~= views(before) + split_from(
                    s@,
                    c,
                    start as int,
                ));
                return out;
            },
            Some(k) => {
                let piece = slice_of(s, start, k);
                out.push(piece);
                assert(views(out@) =~= views(before).push(piece@));
                assert(views(out@) + split_from(s@, c, k + 1) =~= views(before) + split_from(
                    s@,
                    c,
                    start as int,
                ));
                start = k + 1;
            },
        }
    }
}

/// The non-empty pieces joined with `sep` between them (what
/// `filter(|p| !p.is_empty())` followed by `join(sep)` gives).
pub open spec fn join_nonempty(parts: Seq<Seq<char>>, sep: Seq<char>) -> Seq<char>
    decreases parts.len(),
{
    if parts.len() == 0 {
        seq![]
    } else {
        let prev = join_nonempty(parts.drop_last(), sep);
        let last = parts.last();
        if last.len() == 0 {
            prev
        } else if prev.len() == 0 {
            last
        } else {
            prev + sep + last
        }
    }
}

/// The non-empty pieces of `parts`, from index `from` on, joined with `sep`.
pub fn join_nonempty_from(parts: &Vec<Vec<char>>, from: usize, sep: &Vec<char>) -> (r: Vec<char>)
    requires
        from <= parts@.len(),
    ensures
        r@ == join_nonempty(views(parts@).skip(from as int), sep@),
{
    let mut out: Vec<char> = Vec::new();
    let mut i: usize = from;
    assert(views(parts@).subrange(from as int, from as int) =~= Seq::<Seq<char>>::empty());
    while i < parts.len()
        invariant
            from <= i <= parts@.len(),
            out@ == join_nonempty(views(parts@).subrange(from as int, i as int), sep@),
        decreases parts@.len() - i,
    {
        let ghost sub = views(parts@).subrange(from as int, i + 1);
        assert(sub.drop_last() =~= views(parts@).subrange(from as int, i as int));
        assert(sub.last() == parts@[i as int]@);
        let piece = &parts[i];
        if piece.len() == 0 {
        } else if out.len() == 0 {
            out = piece.clone();
        } else {
            let with_sep = concat(&out, sep);
            out = concat(&with_sep, piece);
        }
        i += 1;
    }
    assert(views(parts@).subrange(from as int, parts@.len() as int) =~= views(parts@).skip(
        from as int,
    ));
    out
}

// ---------------------------------------------------------------------------
// ASCII case

/// `str::eq_ignore_ascii_case`.
pub open spec fn eq_ignore_ascii_case(a: Seq<char>, b: Seq<char>) -> bool {
    a.len() == b.len() && forall|i: int| 0 <= i < a.len() ==> ascii_lower(a[i]) == ascii_lower(b[i])
}

pub fn eq_ignore_ascii_case_exec(a: &Vec<char>, b: &Vec<char>) -> (r: bool)
    ensures
        r == eq_ignore_ascii_case(a@, b@),
{
    if a.len() != b.len() {
        return false;
    }
    let mut i: usize = 0;
    while i < a.len()
        invariant
            a@.len() == b@.len(),
            i <= a@.len(),
            forall|k: int| 0 <= k < i ==> ascii_lower(a@[k]) == ascii_lower(b@[k]),
        decreases a@.len() - i,
    {
        if to_ascii_lower(a[i]) != to_ascii_lower(b[i]) {
            return false;
        }
        i += 1;
    }
    true
}

// ---------------------------------------------------------------------------
// Decimal numbers

pub open spec fn digit_char(d: nat) -> char {
    (('0' as u32) + d) as char
}

/// The decimal digits of `n`, most significant first, without leading zeros.
pub open spec fn decimal_digits(n: nat) -> Seq<char>
    decreases n,
{
    if n < 10 {
        seq![digit_char(n)]
    } else {
        decimal_digits(n / 10).push(digit_char(n % 10))
    }
}

/// `i64`'s `Display`: an optional minus sign, then the decimal digits.
pub open spec fn decimal_i64(n: int) -> Seq<char> {
    if n < 0 {
        seq!['-'] + decimal_digits((-n) as nat)
    } else {
        decimal_digits(n as nat)
    }
}

fn digit_to_char(d: u64) -> (r: char)
    requires
        d < 10,
    ensures
        r == digit_char(d as nat),
{
    let b: u8 = (48 + d) as u8;
    b as char
}

fn push_decimal_digits(out: &mut Vec<char>, m: u64)
    ensures
        final(out)@ == old(out)@ + decimal_digits(m as nat),
    decreases m,
{
    if m >= 10 {
        push_decimal_digits(out, m / 10);
    }
    let ghost mid = out@;
    out.push(digit_to_char(m % 10));
    if m >= 10 {
        assert(final(out)@ =~= old(out)@ + decimal_digits(m as nat)) by {
            assert(decimal_digits(m as nat) == decimal_digits((m / 10) as nat).push(digit_char((m % 10) as nat)));
        }
    } else {
        assert(out@ =~= old(out)@ + decimal_digits(m as nat));
    }
}

/// The decimal text of `n`, as `n.to_string()` writes it.
pub fn i64_to_decimal(n: i64) -> (r: Vec<char>)
    ensures
        r@ == decimal_i64(n as int),
{
    let mut out: Vec<char> = Vec::new();
    if n < 0 {
        out.push('-');
        let m: u64 = (0i128 - (n as i128)) as u64;
        push_decimal_digits(&mut out, m);
        assert(out@ =~= seq!['-'] + decimal_digits((-n) as nat));
    } else {
        push_decimal_digits(&mut out, n as u64);
        assert(out@ =~= decimal_digits(n as nat));
    }
    out
}

/// The decimal digits of `n` are ASCII digits, and they spell `n`.
pub proof fn lemma_decimal_digits(n: nat)
    ensures
        all_digits(decimal_digits(n)),
        decimal_digits(n).len() > 0,
        digits_value(decimal_digits(n)) == n,
    decreases n,
{
    assert(digit_char(n % 10) as u32 == ('0' as u32) + n % 10);
    if n < 10 {
        let d = decimal_digits(n);
        assert(d.drop_last() =~= Seq::<char>::empty());
        assert(n % 10 == n);
        assert(digits_value(d.drop_last()) == 0);
        assert(d.last() == digit_char(n));
        assert(digits_value(d) == (digits_value(d.drop_last()) * 10 + ((d.last() as u32) - ('0' as u32))) as nat);
    }
    if n >= 10 {
        lemma_decimal_digits(n / 10);
        let prev = decimal_digits(n / 10);
        let d = decimal_digits(n);
        assert(d.drop_last() =~= prev);
        assert(d.last() == digit_char(n % 10));
        assert((n / 10) * 10 + n % 10 == n) by (nonlinear_arith);
        assert(d.len() > 0);
        assert(digits_value(d) == (digits_value(d.drop_last()) * 10 + ((d.last() as u32) - ('0' as u32))) as nat);
        assert(digits_value(d.drop_last()) == n / 10);
        assert((d.last() as u32) - ('0' as u32) == n % 10);
        assert forall|i: int| 0 <= i < d.len() implies is_ascii_digit(#[trigger] d[i]) by {
            if i < d.len() - 1 {
                assert(d[i] == prev[i]);
            }
        }
    }
}

/// Different numbers are written differently.
pub proof fn lemma_decimal_i64_injective(a: int, b: int)
    requires
        a != b,
    ensures
        decimal_i64(a) != decimal_i64(b),
        forall|i: int|
            0 <= i < decimal_i64(a).len() ==> is_ascii_digit(#[trigger] decimal_i64(a)[i])
                || decimal_i64(a)[i] == '-',
{
    let da = if a < 0 {
        (-a) as nat
    } else {
        a as nat
    };
    let db = if b < 0 {
        (-b) as nat
    } else {
        b as nat
    };
    lemma_decimal_digits(da);
    lemma_decimal_digits(db);
    let sa = decimal_i64(a);
    if a < 0 {
        assert forall|i: int| 0 <= i < sa.len() implies is_ascii_digit(#[trigger] sa[i]) || sa[i]
            == '-' by {
            if i > 0 {
                assert(sa[i] == decimal_digits(da)[i - 1]);
            }
        }
    }
    if decimal_i64(a) == decimal_i64(b) {
        if (a < 0) != (b < 0) {
            let neg = if a < 0 {
                decimal_i64(a)
            } else {
                decimal_i64(b)
            };
            let pos = if a < 0 {
                decimal_digits(db)
            } else {
                decimal_digits(da)
            };
            assert(neg[0] == '-');
            assert(is_ascii_digit(pos[0]));
        } else if a < 0 {
            assert(decimal_i64(a).drop_first() =~= decimal_digits(da));
            assert(decimal_i64(b).drop_first() =~= decimal_digits(db));
        }
    }
}

/// The number that the decimal digits `s` spell.
pub open spec fn digits_value(s: Seq<char>) -> nat
    decreases s.len(),
{
    if s.len() == 0 {
        0
    } else {
        (digits_value(s.drop_last()) * 10 + ((s.last() as u32) - ('0' as u32))) as nat
    }
}

pub open spec fn all_digits(s: Seq<char>) -> bool {
    forall|i: int| 0 <= i < s.len() ==> is_ascii_digit(#[trigger] s[i])
}

/// `str::parse::<u64>`: an optional `+`, then one or more ASCII digits
/// whose value fits in a `u64`.
pub open spec fn parse_u64(s: Seq<char>) -> Option<u64> {
    let body = unsigned_body(s);
    if body.len() > 0 && all_digits(body) && digits_value(body) <= u64::MAX {
        Some(digits_value(body) as u64)
    } else {
        None
    }
}

/// The text after an optional leading `+`.
pub open spec fn unsigned_body(s: Seq<char>) -> Seq<char> {
    if s.len() > 0 && s[0] == '+' {
        s.drop_first()
    } else {
        s
    }
}

/// A longer run of digits is worth at least as much as its prefix.
pub proof fn lemma_digits_value_mono(s: Seq<char>, i: int, j: int)
    requires
        0 <= i <= j <= s.len(),
        all_digits(s.take(j)),
    ensures
        digits_value(s.take(i)) <= digits_value(s.take(j)),
    decreases j - i,
{
    if i < j {
        let t = s.take(j);
        assert(t.drop_last() =~= s.take(j - 1));
        assert(is_ascii_digit(t[j - 1]));
        assert forall|k: int| 0 <= k < j - 1 implies is_ascii_digit(#[trigger] s.take(j - 1)[k]) by {
            assert(s.take(j - 1)[k] == t[k]);
        }
        lemma_digits_value_mono(s, i, j - 1);
    }
}

/// `str::parse::<u64>`.
pub fn parse_u64_exec(s: &Vec<char>) -> (r: Option<u64>)
    ensures
        r == parse_u64(s@),
{
    let ghost body = unsigned_body(s@);
    let start: usize = if s.len() > 0 && s[0] == '+' {
        1
    } else {
        0
    };
    assert(body =~= s@.skip(start as int));
    if start >= s.len() {
        return None;
    }
    let mut acc: u64 = 0;
    let mut i: usize = start;
    assert(body.take(0) =~= Seq::<char>::empty());
    while i < s.len()
        invariant
            start <= i <= s@.len(),
            start < s@.len(),
            body == s@.skip(start as int),
            body == unsigned_body(s@),
            all_digits(body.take(i - start)),
            acc as nat == digits_value(body.take(i - start)),
        decreases s@.len() - i,
    {
        let c = s[i];
        let ghost t = body.take(i + 1 - start);
        assert(t.drop_last() =~= body.take(i - start));
        assert(t.last() == c);
        if !is_digit(c) {
            assert(!is_ascii_digit(body[i - start]));
            assert(!all_digits(body));
            return None;
        }
        assert forall|k: int| 0 <= k < t.len() implies is_ascii_digit(#[trigger] t[k]) by {
            if k < t.len() - 1 {
                assert(t[k] == body.take(i - start)[k]);
            }
        }
        let d: u64 = (c as u32 - '0' as u32) as u64;
        match acc.checked_mul(10) {
            None => {
                proof {
                    if all_digits(body) {
                        lemma_digits_value_mono(body, i + 1 - start, body.len() as int);
                        assert(body.take(body.len() as int) =~= body);
                    }
                }
                return None;
            },
            Some(m) => match m.checked_add(d) {
                None => {
                    proof {
                        if all_digits(body) {
                            lemma_digits_value_mono(body, i + 1 - start, body.len() as int);
                            assert(body.take(body.len() as int) =~= body);
                        }
                    }
                    return None;
                },
                Some(v) => {
                    acc = v;
                },
            },
        }
        i += 1;
    }
    assert(body.take(i - start) =~= body);
    Some(acc)
}

} // verus!
