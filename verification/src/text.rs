//! Character-level text handling: the classes of characters, trimming,
//! splitting, searching, and the decimal forms of integers.

use vstd::prelude::*;
use vstd::std_specs::iter::IteratorSpec;

verus! {

// ------------------------------------------------------------------
// Character classes
// ------------------------------------------------------------------

/// Unicode `White_Space`, the property that `char::is_whitespace` and `str::trim` use.
pub open spec fn is_ws(c: char) -> bool {
    ||| ('\u{9}' <= c && c <= '\u{d}')
    ||| c == ' '
    ||| c == '\u{85}'
    ||| c == '\u{a0}'
    ||| c == '\u{1680}'
    ||| ('\u{2000}' <= c && c <= '\u{200a}')
    ||| c == '\u{2028}'
    ||| c == '\u{2029}'
    ||| c == '\u{202f}'
    ||| c == '\u{205f}'
    ||| c == '\u{3000}'
}

pub open spec fn is_digit(c: char) -> bool {
    '0' <= c && c <= '9'
}

pub open spec fn is_alpha(c: char) -> bool {
    ('a' <= c && c <= 'z') || ('A' <= c && c <= 'Z')
}

pub open spec fn is_hex(c: char) -> bool {
    is_digit(c) || ('a' <= c && c <= 'f') || ('A' <= c && c <= 'F')
}

pub fn char_is_ws(c: char) -> (r: bool)
    ensures
        r == is_ws(c),
{
    ('\u{9}' <= c && c <= '\u{d}') || c == ' ' || c == '\u{85}' || c == '\u{a0}' || c == '\u{1680}'
        || ('\u{2000}' <= c && c <= '\u{200a}') || c == '\u{2028}' || c == '\u{2029}'
        || c == '\u{202f}' || c == '\u{205f}' || c == '\u{3000}'
}

pub fn char_is_digit(c: char) -> (r: bool)
    ensures
        r == is_digit(c),
{
    '0' <= c && c <= '9'
}

pub fn char_is_alpha(c: char) -> (r: bool)
    ensures
        r == is_alpha(c),
{
    ('a' <= c && c <= 'z') || ('A' <= c && c <= 'Z')
}

pub fn char_is_hex(c: char) -> (r: bool)
    ensures
        r == is_hex(c),
{
    ('0' <= c && c <= '9') || ('a' <= c && c <= 'f') || ('A' <= c && c <= 'F')
}

pub open spec fn all_digits(s: Seq<char>) -> bool {
    forall|i: int| 0 <= i < s.len() ==> is_digit(#[trigger] s[i])
}

pub fn is_all_digits(s: &[char]) -> (r: bool)
    ensures
        r == all_digits(s@),
{
    let mut i: usize = 0;
    while i < s.len()
        invariant
            i <= s@.len(),
            forall|j: int| 0 <= j < i ==> is_digit(#[trigger] s@[j]),
        decreases s@.len() - i,
    {
        if !char_is_digit(s[i]) {
            return false;
        }
        i = i + 1;
    }
    true
}

/// Number of ASCII letters in `s`.
pub open spec fn count_alpha(s: Seq<char>) -> nat
    decreases s.len(),
{
    if s.len() == 0 {
        0
    } else {
        count_alpha(s.drop_last()) + if is_alpha(s.last()) {
            1nat
        } else {
            0nat
        }
    }
}

/// Number of ASCII digits in `s`.
pub open spec fn count_digit(s: Seq<char>) -> nat
    decreases s.len(),
{
    if s.len() == 0 {
        0
    } else {
        count_digit(s.drop_last()) + if is_digit(s.last()) {
            1nat
        } else {
            0nat
        }
    }
}

/// No more letters than characters.
pub proof fn lemma_count_alpha_le(s: Seq<char>)
    ensures
        count_alpha(s) <= s.len(),
    decreases s.len(),
{
    if s.len() > 0 {
        lemma_count_alpha_le(s.drop_last());
    }
}

pub fn alpha_count(s: &[char]) -> (r: usize)
    ensures
        r == count_alpha(s@),
{
    let mut n: usize = 0;
    let mut i: usize = 0;
    while i < s.len()
        invariant
            i <= s@.len(),
            n == count_alpha(s@.take(i as int)),
            n <= i,
        decreases s@.len() - i,
    {
        assert(s@.take(i + 1).drop_last() == s@.take(i as int));
        if char_is_alpha(s[i]) {
            n = n + 1;
        }
        i = i + 1;
    }
    assert(s@.take(i as int) == s@);
    n
}

pub fn digit_count(s: &[char]) -> (r: usize)
    ensures
        r == count_digit(s@),
{
    let mut n: usize = 0;
    let mut i: usize = 0;
    while i < s.len()
        invariant
            i <= s@.len(),
            n == count_digit(s@.take(i as int)),
            n <= i,
        decreases s@.len() - i,
    {
        assert(s@.take(i + 1).drop_last() == s@.take(i as int));
        if char_is_digit(s[i]) {
            n = n + 1;
        }
        i = i + 1;
    }
    assert(s@.take(i as int) == s@);
    n
}

/// Bytes that the UTF-8 encoding of `c` takes.
pub open spec fn char_utf8_len(c: char) -> nat {
    if (c as u32) < 0x80 {
        1
    } else if (c as u32) < 0x800 {
        2
    } else if (c as u32) < 0x10000 {
        3
    } else {
        4
    }
}

/// Bytes that the UTF-8 encoding of `s` takes (what `str::len` counts).
pub open spec fn utf8_len(s: Seq<char>) -> nat
    decreases s.len(),
{
    if s.len() == 0 {
        0
    } else {
        utf8_len(s.drop_last()) + char_utf8_len(s.last())
    }
}

pub fn byte_len(s: &[char]) -> (r: u128)
    ensures
        r == utf8_len(s@),
        r <= 4 * s@.len(),
{
    let mut n: u128 = 0;
    let mut i: usize = 0;
    while i < s.len()
        invariant
            i <= s@.len(),
            n == utf8_len(s@.take(i as int)),
            n <= 4 * i,
        decreases s@.len() - i,
    {
        assert(s@.take(i + 1).drop_last() == s@.take(i as int));
        let c = s[i];
        let k: u128 = if (c as u32) < 0x80 {
            1
        } else if (c as u32) < 0x800 {
            2
        } else if (c as u32) < 0x10000 {
            3
        } else {
            4
        };
        n = n + k;
        i = i + 1;
    }
    assert(s@.take(i as int) == s@);
    n
}

// ------------------------------------------------------------------
// Conversions between `str`, `String` and character vectors
// ------------------------------------------------------------------

/// The characters of a string slice, in order.
pub fn chars_of(s: &str) -> (r: Vec<char>)
    ensures
        r@ == s@,
{
    let mut r: Vec<char> = Vec::new();
    for c in it: s.chars()
        invariant
            r@ == it.seq().take(it.index() as int),
            it.seq() == s@,
    {
        r.push(c);
    }
    r
}

/// `String::push`: appends one character.
#[verifier::external_body]
fn push_char(s: &mut String, c: char)
    ensures
        final(s)@ == old(s)@.push(c),
{
    s.push(c);
}

/// The string made of the given characters.
pub fn string_of(v: &[char]) -> (r: String)
    ensures
        r@ == v@,
{
    let mut r = String::new();
    let mut i: usize = 0;
    while i < v.len()
        invariant
            i <= v@.len(),
            r@ == v@.take(i as int),
        decreases v@.len() - i,
    {
        push_char(&mut r, v[i]);
        assert(v@.take(i + 1) == v@.take(i as int).push(v@[i as int]));
        i = i + 1;
    }
    assert(v@.take(i as int) == v@);
    r
}

/// A copy of `s[lo..hi]`.
pub fn copy_range(s: &[char], lo: usize, hi: usize) -> (r: Vec<char>)
    requires
        lo <= hi <= s@.len(),
    ensures
        r@ == s@.subrange(lo as int, hi as int),
{
    let mut r: Vec<char> = Vec::new();
    let mut i = lo;
    while i < hi
        invariant
            lo <= i <= hi <= s@.len(),
            r@ == s@.subrange(lo as int, i as int),
        decreases hi - i,
    {
        r.push(s[i]);
        assert(s@.subrange(lo as int, i + 1) == s@.subrange(lo as int, i as int).push(s@[i as int]));
        i = i + 1;
    }
    r
}

/// Appends `b` to `a`.
pub fn append_chars(a: &mut Vec<char>, b: &[char])
    ensures
        final(a)@ == old(a)@ + b@,
{
    let mut i: usize = 0;
    while i < b.len()
        invariant
            i <= b@.len(),
            a@ == old(a)@ + b@.take(i as int),
        decreases b@.len() - i,
    {
        a.push(b[i]);
        assert(b@.take(i + 1) == b@.take(i as int).push(b@[i as int]));
        i = i + 1;
    }
    assert(b@.take(i as int) == b@);
}

pub fn chars_eq(a: &[char], b: &[char]) -> (r: bool)
    ensures
        r == (a@ == b@),
{
    if a.len() != b.len() {
        return false;
    }
    let mut i: usize = 0;
    while i < a.len()
        invariant
            a@.len() == b@.len(),
            i <= a@.len(),
            forall|j: int| 0 <= j < i ==> a@[j] == b@[j],
        decreases a@.len() - i,
    {
        if a[i] != b[i] {
            return false;
        }
        i = i + 1;
    }
    assert(a@ =~= b@);
    true
}


// ------------------------------------------------------------------
// Trimming
// ------------------------------------------------------------------

/// `s` without its leading whitespace.
pub open spec fn trim_start(s: Seq<char>) -> Seq<char>
    decreases s.len(),
{
    if s.len() > 0 && is_ws(s[0]) {
        trim_start(s.subrange(1, s.len() as int))
    } else {
        s
    }
}

/// `s` without its trailing whitespace.
pub open spec fn trim_end(s: Seq<char>) -> Seq<char>
    decreases s.len(),
{
    if s.len() > 0 && is_ws(s.last()) {
        trim_end(s.drop_last())
    } else {
        s
    }
}

/// `s` without leading and trailing whitespace (`str::trim`).
pub open spec fn trim(s: Seq<char>) -> Seq<char> {
    trim_end(trim_start(s))
}

pub proof fn lemma_trim_start_at(s: Seq<char>, k: int)
    requires
        0 <= k <= s.len(),
        forall|j: int| 0 <= j < k ==> is_ws(#[trigger] s[j]),
        k == s.len() || !is_ws(s[k]),
    ensures
        trim_start(s) == s.subrange(k, s.len() as int),
    decreases k,
{
    if k == 0 {
        assert(s.subrange(0, s.len() as int) == s);
    } else {
        let t = s.subrange(1, s.len() as int);
        assert forall|j: int| 0 <= j < k - 1 implies is_ws(#[trigger] t[j]) by {
            assert(t[j] == s[j + 1]);
        }
        lemma_trim_start_at(t, k - 1);
        assert(t.subrange(k - 1, t.len() as int) == s.subrange(k, s.len() as int));
    }
}

pub proof fn lemma_trim_end_at(s: Seq<char>, k: int)
    requires
        0 <= k <= s.len(),
        forall|j: int| k <= j < s.len() ==> is_ws(#[trigger] s[j]),
        k == 0 || !is_ws(s[k - 1]),
    ensures
        trim_end(s) == s.subrange(0, k),
    decreases s.len() - k,
{
    if k == s.len() {
        assert(s.subrange(0, k) == s);
    } else {
        let t = s.drop_last();
        assert forall|j: int| k <= j < t.len() implies is_ws(#[trigger] t[j]) by {
            assert(t[j] == s[j]);
        }
        lemma_trim_end_at(t, k);
        assert(t.subrange(0, k) == s.subrange(0, k));
    }
}

pub fn trim_chars(s: &[char]) -> (r: Vec<char>)
    ensures
        r@ == trim(s@),
{
    let mut lo: usize = 0;
    while lo < s.len() && char_is_ws(s[lo])
        invariant
            lo <= s@.len(),
            forall|j: int| 0 <= j < lo ==> is_ws(#[trigger] s@[j]),
        decreases s@.len() - lo,
    {
        lo = lo + 1;
    }
    proof {
        lemma_trim_start_at(s@, lo as int);
    }
    let mut hi: usize = s.len();
    while hi > lo && char_is_ws(s[hi - 1])
        invariant
            lo <= hi <= s@.len(),
            forall|j: int| hi <= j < s@.len() ==> is_ws(#[trigger] s@[j]),
        decreases hi - lo,
    {
        hi = hi - 1;
    }
    proof {
        let t = s@.subrange(lo as int, s@.len() as int);
        assert forall|j: int| hi - lo <= j < t.len() implies is_ws(#[trigger] t[j]) by {
            assert(t[j] == s@[j + lo]);
        }
        if hi > lo {
            assert(t[hi - lo - 1] == s@[hi - 1]);
        }
        lemma_trim_end_at(t, hi - lo);
        assert(t.subrange(0, hi - lo) == s@.subrange(lo as int, hi as int));
    }
    copy_range(s, lo, hi)
}

/// `s` without its leading whitespace (`str::trim_start`).
pub fn trim_start_chars(s: &[char]) -> (r: Vec<char>)
    ensures
        r@ == trim_start(s@),
{
    let mut lo: usize = 0;
    while lo < s.len() && char_is_ws(s[lo])
        invariant
            lo <= s@.len(),
            forall|j: int| 0 <= j < lo ==> is_ws(#[trigger] s@[j]),
        decreases s@.len() - lo,
    {
        lo = lo + 1;
    }
    proof {
        lemma_trim_start_at(s@, lo as int);
    }
    copy_range(s, lo, s.len())
}

proof fn lemma_trim_start_props(s: Seq<char>)
    ensures
        trim_start(s).len() > 0 ==> !is_ws(trim_start(s)[0]),
        trim_start(s).len() <= s.len(),
    decreases s.len(),
{
    if s.len() > 0 && is_ws(s[0]) {
        lemma_trim_start_props(s.subrange(1, s.len() as int));
    }
}

// ------------------------------------------------------------------
// Searching
// ------------------------------------------------------------------

/// `pat` occurs in `s` starting at index `i`.
pub open spec fn matches_at(s: Seq<char>, pat: Seq<char>, i: int) -> bool {
    0 <= i && i + pat.len() <= s.len() && s.subrange(i, i + pat.len()) == pat
}

/// `pat` occurs somewhere in `s` (`str::contains`).
pub open spec fn contains(s: Seq<char>, pat: Seq<char>) -> bool {
    exists|i: int| matches_at(s, pat, i)
}

/// The first index at or after `i` where `pat` occurs.
pub open spec fn find_from(s: Seq<char>, pat: Seq<char>, i: int) -> Option<int>
    decreases s.len() + 1 - i,
{
    if i < 0 || i + pat.len() > s.len() {
        None
    } else if matches_at(s, pat, i) {
        Some(i)
    } else {
        find_from(s, pat, i + 1)
    }
}

/// The first index where `pat` occurs (`str::find`).
pub open spec fn find(s: Seq<char>, pat: Seq<char>) -> Option<int> {
    find_from(s, pat, 0)
}

/// `s` starts with `pat`.
pub open spec fn starts_with(s: Seq<char>, pat: Seq<char>) -> bool {
    matches_at(s, pat, 0)
}

/// `s` ends with `pat`.
pub open spec fn ends_with(s: Seq<char>, pat: Seq<char>) -> bool {
    matches_at(s, pat, s.len() - pat.len())
}

pub fn match_at(s: &[char], pat: &[char], i: usize) -> (r: bool)
    ensures
        r == matches_at(s@, pat@, i as int),
{
    if pat.len() > s.len() || i > s.len() - pat.len() {
        return false;
    }
    let mut k: usize = 0;
    while k < pat.len()
        invariant
            i + pat@.len() <= s@.len(),
            i <= s.len() - pat.len(),
            k <= pat@.len(),
            forall|j: int| 0 <= j < k ==> s@[i + j] == pat@[j],
        decreases pat@.len() - k,
    {
        assert(i + k < s@.len());
        if s[i + k] != pat[k] {
            assert(s@.subrange(i as int, i + pat@.len())[k as int] != pat@[k as int]);
            return false;
        }
        k = k + 1;
    }
    assert(s@.subrange(i as int, i + pat@.len()) =~= pat@);
    true
}

proof fn lemma_find_from_skip(s: Seq<char>, pat: Seq<char>, i: int, k: int)
    requires
        0 <= i <= k,
        forall|j: int| i <= j < k ==> !matches_at(s, pat, j),
    ensures
        find_from(s, pat, i) == find_from(s, pat, k),
    decreases k - i,
{
    if i < k {
        if i + pat.len() > s.len() {
            lemma_find_from_none(s, pat, k);
        } else {
            lemma_find_from_skip(s, pat, i + 1, k);
        }
    }
}

proof fn lemma_find_from_none(s: Seq<char>, pat: Seq<char>, i: int)
    requires
        i + pat.len() > s.len(),
    ensures
        find_from(s, pat, i) is None,
{
}

/// `find_from` gives the first match at or after `i`, and `None` only
/// where there is none.
pub proof fn lemma_find_some(s: Seq<char>, pat: Seq<char>, i: int)
    requires
        0 <= i,
    ensures
        find_from(s, pat, i) matches Some(k) ==> i <= k && matches_at(s, pat, k) && forall|j: int|
            i <= j < k ==> !matches_at(s, pat, j),
        find_from(s, pat, i) is None ==> forall|j: int| i <= j ==> !matches_at(s, pat, j),
    decreases s.len() + 1 - i,
{
    if i < 0 || i + pat.len() > s.len() {
    } else if matches_at(s, pat, i) {
    } else {
        lemma_find_some(s, pat, i + 1);
    }
}

/// `find` succeeds exactly where `contains` holds.
pub proof fn lemma_find_contains(s: Seq<char>, pat: Seq<char>)
    ensures
        find(s, pat) is Some <==> contains(s, pat),
{
    lemma_find_some(s, pat, 0);
}

/// First occurrence of `pat` in `s` at or after `from`.
pub fn find_chars_from(s: &[char], pat: &[char], from: usize) -> (r: Option<usize>)
    ensures
        r matches Some(k) ==> find_from(s@, pat@, from as int) == Some(k as int),
        r is None ==> find_from(s@, pat@, from as int) is None,
{
    if pat.len() > s.len() {
        return None;
    }
    let last = s.len() - pat.len();
    if from > last {
        return None;
    }
    let mut i = from;
    loop
        invariant
            from <= i <= last,
            last + pat@.len() == s@.len(),
            forall|j: int| from <= j < i ==> !matches_at(s@, pat@, j),
        decreases last - i,
    {
        if match_at(s, pat, i) {
            proof {
                lemma_find_from_skip(s@, pat@, from as int, i as int);
            }
            return Some(i);
        }
        if i == last {
            proof {
                lemma_find_from_skip(s@, pat@, from as int, i + 1);
            }
            return None;
        }
        i = i + 1;
    }
}

pub fn find_chars(s: &[char], pat: &[char]) -> (r: Option<usize>)
    ensures
        r matches Some(k) ==> find(s@, pat@) == Some(k as int),
        r is None ==> find(s@, pat@) is None,
{
    find_chars_from(s, pat, 0)
}

pub fn contains_chars(s: &[char], pat: &[char]) -> (r: bool)
    ensures
        r == contains(s@, pat@),
{
    proof {
        lemma_find_contains(s@, pat@);
    }
    find_chars(s, pat).is_some()
}

pub fn starts_with_chars(s: &[char], pat: &[char]) -> (r: bool)
    ensures
        r == starts_with(s@, pat@),
{
    match_at(s, pat, 0)
}

pub fn ends_with_chars(s: &[char], pat: &[char]) -> (r: bool)
    ensures
        r == ends_with(s@, pat@),
{
    if pat.len() > s.len() {
        return false;
    }
    match_at(s, pat, s.len() - pat.len())
}

/// The last index where `pat` occurs, searching downward from `i`.
pub open spec fn rfind_from(s: Seq<char>, pat: Seq<char>, i: int) -> Option<int>
    decreases i + 1,
{
    if i < 0 {
        None
    } else if matches_at(s, pat, i) {
        Some(i)
    } else {
        rfind_from(s, pat, i - 1)
    }
}

/// The last index where `pat` occurs (`str::rfind`).
pub open spec fn rfind(s: Seq<char>, pat: Seq<char>) -> Option<int> {
    rfind_from(s, pat, s.len() - pat.len())
}

/// A match found backwards from `i` lies at or before `i`.
pub proof fn lemma_rfind_from_some(s: Seq<char>, pat: Seq<char>, i: int)
    ensures
        rfind_from(s, pat, i) matches Some(k) ==> k <= i && matches_at(s, pat, k),
    decreases i + 1,
{
    if i >= 0 && !matches_at(s, pat, i) {
        lemma_rfind_from_some(s, pat, i - 1);
    }
}

/// What `rfind` finds is a match.
pub proof fn lemma_rfind_some(s: Seq<char>, pat: Seq<char>)
    ensures
        rfind(s, pat) matches Some(k) ==> matches_at(s, pat, k),
{
    lemma_rfind_from_some(s, pat, s.len() - pat.len());
}

pub fn rfind_chars(s: &[char], pat: &[char]) -> (r: Option<usize>)
    ensures
        r matches Some(k) ==> rfind(s@, pat@) == Some(k as int),
        r is None ==> rfind(s@, pat@) is None,
{
    if pat.len() > s.len() {
        return None;
    }
    let mut i: usize = s.len() - pat.len();
    loop
        invariant
            i + pat@.len() <= s@.len(),
            rfind(s@, pat@) == rfind_from(s@, pat@, i as int),
        decreases i,
    {
        if match_at(s, pat, i) {
            return Some(i);
        }
        if i == 0 {
            assert(rfind_from(s@, pat@, -1) is None);
            return None;
        }
        i = i - 1;
    }
}

// ------------------------------------------------------------------
// Splitting
// ------------------------------------------------------------------

/// The character sequences that a vector of character vectors holds.
pub open spec fn views(v: Seq<Vec<char>>) -> Seq<Seq<char>> {
    v.map_values(|x: Vec<char>| x@)
}

/// The pieces of `s` between occurrences of `sep`, built left to right:
/// the finished pieces and the piece still open.
pub open spec fn split_state(s: Seq<char>, sep: char) -> (Seq<Seq<char>>, Seq<char>)
    decreases s.len(),
{
    if s.len() == 0 {
        (Seq::empty(), Seq::empty())
    } else {
        let st = split_state(s.drop_last(), sep);
        if s.last() == sep {
            (st.0.push(st.1), Seq::empty())
        } else {
            (st.0, st.1.push(s.last()))
        }
    }
}

/// The pieces of `s` between occurrences of `sep` (`str::split` on a character).
pub open spec fn split_char(s: Seq<char>, sep: char) -> Seq<Seq<char>> {
    split_state(s, sep).0.push(split_state(s, sep).1)
}

proof fn lemma_split_state_no_sep(s: Seq<char>, sep: char)
    requires
        forall|k: int| 0 <= k < s.len() ==> s[k] != sep,
    ensures
        split_state(s, sep).0 == Seq::<Seq<char>>::empty(),
        split_state(s, sep).1 == s,
    decreases s.len(),
{
    if s.len() > 0 {
        lemma_split_state_no_sep(s.drop_last(), sep);
        assert(s.drop_last().push(s.last()) =~= s);
    }
}

proof fn lemma_split_state_append(p: Seq<char>, y: Seq<char>, sep: char)
    requires
        split_state(p, sep).1.len() == 0,
    ensures
        split_state(p + y, sep).0 == split_state(p, sep).0 + split_state(y, sep).0,
        split_state(p + y, sep).1 == split_state(y, sep).1,
    decreases y.len(),
{
    let pp = split_state(p, sep);
    if y.len() == 0 {
        assert(p + y =~= p);
        assert(pp.0 + Seq::<Seq<char>>::empty() =~= pp.0);
        assert(pp.1 =~= Seq::<char>::empty());
    } else {
        lemma_split_state_append(p, y.drop_last(), sep);
        assert((p + y).drop_last() =~= p + y.drop_last());
        assert((p + y).last() == y.last());
        let sy = split_state(y.drop_last(), sep);
        assert((pp.0 + sy.0).push(sy.1) =~= pp.0 + sy.0.push(sy.1));
    }
}

/// Splitting text that holds a line `h` between two separators gives the
/// pieces before it, `h`, and the pieces after it.
pub proof fn lemma_split_char_around(a: Seq<char>, h: Seq<char>, b: Seq<char>, sep: char)
    requires
        forall|k: int| 0 <= k < h.len() ==> h[k] != sep,
    ensures
        split_char(a + seq![sep] + h + seq![sep] + b, sep) == split_char(a, sep) + seq![h] + split_char(b, sep),
{
    let p1 = a.push(sep);
    assert(p1.drop_last() =~= a);
    let p2 = h.push(sep);
    assert(p2.drop_last() =~= h);
    lemma_split_state_no_sep(h, sep);
    assert(split_state(p2, sep).0 =~= seq![h]);
    lemma_split_state_append(p2, b, sep);
    lemma_split_state_append(p1, p2 + b, sep);
    assert(a + seq![sep] + h + seq![sep] + b =~= p1 + (p2 + b));
    let sa = split_state(a, sep);
    let sb = split_state(b, sep);
    assert((sa.0.push(sa.1) + (seq![h] + sb.0)).push(sb.1) =~= sa.0.push(sa.1) + seq![h] + sb.0.push(sb.1));
}

pub fn split_on(s: &[char], sep: char) -> (r: Vec<Vec<char>>)
    ensures
        views(r@) == split_char(s@, sep),
{
    let mut done: Vec<Vec<char>> = Vec::new();
    let mut cur: Vec<char> = Vec::new();
    let mut i: usize = 0;
    while i < s.len()
        invariant
            i <= s@.len(),
            (views(done@), cur@) == split_state(s@.take(i as int), sep),
        decreases s@.len() - i,
    {
        assert(s@.take(i + 1).drop_last() == s@.take(i as int));
        if s[i] == sep {
            let ghost d = views(done@);
            let finished = cur;
            done.push(finished);
            cur = Vec::new();
            assert(views(done@) =~= d.push(finished@));
        } else {
            cur.push(s[i]);
        }
        i = i + 1;
    }
    assert(s@.take(i as int) == s@);
    let ghost d = views(done@);
    let last = cur;
    done.push(last);
    assert(views(done@) =~= d.push(last@));
    done
}

/// The maximal runs of non-whitespace in `s`, built left to right:
/// the finished runs and the run still open.
pub open spec fn ws_state(s: Seq<char>) -> (Seq<Seq<char>>, Seq<char>)
    decreases s.len(),
{
    if s.len() == 0 {
        (Seq::empty(), Seq::empty())
    } else {
        let st = ws_state(s.drop_last());
        if is_ws(s.last()) {
            if st.1.len() > 0 {
                (st.0.push(st.1), Seq::empty())
            } else {
                (st.0, Seq::empty())
            }
        } else {
            (st.0, st.1.push(s.last()))
        }
    }
}

/// The words of `s` (`str::split_whitespace`).
pub open spec fn split_ws(s: Seq<char>) -> Seq<Seq<char>> {
    let st = ws_state(s);
    if st.1.len() > 0 {
        st.0.push(st.1)
    } else {
        st.0
    }
}

pub fn split_whitespace(s: &[char]) -> (r: Vec<Vec<char>>)
    ensures
        views(r@) == split_ws(s@),
{
    let mut done: Vec<Vec<char>> = Vec::new();
    let mut cur: Vec<char> = Vec::new();
    let mut i: usize = 0;
    while i < s.len()
        invariant
            i <= s@.len(),
            (views(done@), cur@) == ws_state(s@.take(i as int)),
        decreases s@.len() - i,
    {
        assert(s@.take(i + 1).drop_last() == s@.take(i as int));
        if char_is_ws(s[i]) {
            if cur.len() > 0 {
                let ghost d = views(done@);
                let finished = cur;
                done.push(finished);
                assert(views(done@) =~= d.push(finished@));
            }
            cur = Vec::new();
        } else {
            cur.push(s[i]);
        }
        i = i + 1;
    }
    assert(s@.take(i as int) == s@);
    if cur.len() > 0 {
        let ghost d = views(done@);
        let last = cur;
        done.push(last);
        assert(views(done@) =~= d.push(last@));
    }
    done
}


/// The integers that are Unicode scalar values, the values of `char`.
pub open spec fn is_scalar(i: u32) -> bool {
    i <= 0x10FFFF && !(0xD800 <= i && i <= 0xDFFF)
}

/// `char::from_u32`: the character with code point `i`, where `i` is a
/// Unicode scalar value, and `None` otherwise.
pub assume_specification[ char::from_u32 ](i: u32) -> (r: Option<char>)
    ensures
        r is Some <==> is_scalar(i),
        r matches Some(c) ==> c as u32 == i,
;

// ------------------------------------------------------------------
// Integers in decimal
// ------------------------------------------------------------------

pub open spec fn digit_val(c: char) -> int {
    (c as int) - ('0' as int)
}

/// The value of a run of decimal digits.
pub open spec fn digits_value(s: Seq<char>) -> int
    decreases s.len(),
{
    if s.len() == 0 {
        0
    } else {
        digits_value(s.drop_last()) * 10 + digit_val(s.last())
    }
}

/// What `str::parse` gives for an integer type whose values are `lo..=hi`:
/// an optional sign (`-` only where the type has negative values), then at
/// least one decimal digit, and a value in range.
pub open spec fn parse_int(s: Seq<char>, lo: int, hi: int) -> Option<int> {
    let neg = s.len() > 0 && s[0] == '-';
    let plus = s.len() > 0 && s[0] == '+';
    let body = if neg || plus {
        s.subrange(1, s.len() as int)
    } else {
        s
    };
    if body.len() == 0 || !all_digits(body) || (neg && lo >= 0) {
        None
    } else {
        let v = if neg {
            -digits_value(body)
        } else {
            digits_value(body)
        };
        if lo <= v && v <= hi {
            Some(v)
        } else {
            None
        }
    }
}

proof fn lemma_digits_value_nonneg(s: Seq<char>)
    requires
        all_digits(s),
    ensures
        digits_value(s) >= 0,
    decreases s.len(),
{
    if s.len() > 0 {
        assert(all_digits(s.drop_last())) by {
            assert forall|i: int| 0 <= i < s.drop_last().len() implies is_digit(
                #[trigger] s.drop_last()[i],
            ) by {
                assert(s.drop_last()[i] == s[i]);
            }
        }
        lemma_digits_value_nonneg(s.drop_last());
        assert(is_digit(s[s.len() - 1]));
    }
}

proof fn lemma_digits_value_prefix(s: Seq<char>, k: int)
    requires
        all_digits(s),
        0 <= k <= s.len(),
    ensures
        digits_value(s.take(k)) <= digits_value(s),
    decreases s.len() - k,
{
    if k < s.len() {
        let t = s.drop_last();
        assert(all_digits(t)) by {
            assert forall|i: int| 0 <= i < t.len() implies is_digit(#[trigger] t[i]) by {
                assert(t[i] == s[i]);
            }
        }
        lemma_digits_value_prefix(t, k);
        assert(t.take(k) == s.take(k));
        lemma_digits_value_nonneg(t);
        assert(is_digit(s[s.len() - 1]));
    } else {
        assert(s.take(k) == s);
    }
}

/// Parses `s` as `str::parse` does for an integer type whose values are
/// `lo..=hi`.
pub fn parse_int_chars(s: &[char], lo: i64, hi: i64) -> (r: Option<i64>)
    requires
        lo <= 0 <= hi,
    ensures
        r matches Some(v) ==> parse_int(s@, lo as int, hi as int) == Some(v as int),
        r is None ==> parse_int(s@, lo as int, hi as int) is None,
{
    let n = s.len();
    if n == 0 {
        return None;
    }
    let neg = s[0] == '-';
    let plus = s[0] == '+';
    let start: usize = if neg || plus {
        1
    } else {
        0
    };
    let ghost body = s@.subrange(start as int, n as int);
    assert(body == (if neg || plus {
        s@.subrange(1, s@.len() as int)
    } else {
        s@
    }));
    if start == n {
        return None;
    }
    if neg && lo >= 0 {
        return None;
    }
    let bound: i128 = if neg {
        -(lo as i128)
    } else {
        hi as i128
    };
    let mut acc: i128 = 0;
    let mut i: usize = start;
    while i < n
        invariant
            start <= i <= n,
            n == s@.len(),
            n > 0,
            neg == (s@[0] == '-'),
            plus == (s@[0] == '+'),
            start == (if neg || plus { 1usize } else { 0usize }),
            !(neg && lo >= 0),
            lo <= 0 <= hi,
            bound == (if neg { -lo } else { hi as int }),
            body == (if neg || plus {
                s@.subrange(1, s@.len() as int)
            } else {
                s@
            }),
            body == s@.subrange(start as int, n as int),
            0 <= bound <= 0x8000_0000_0000_0000,
            acc == digits_value(body.take(i - start)),
            all_digits(body.take(i - start)),
            0 <= acc <= bound,
        decreases n - i,
    {
        let c = s[i];
        assert(body.take(i + 1 - start).drop_last() == body.take(i - start));
        assert(body.take(i + 1 - start).last() == c);
        if !char_is_digit(c) {
            assert(!all_digits(body)) by {
                assert(body[i - start] == c);
            }
            return None;
        }
        assert(all_digits(body.take(i + 1 - start))) by {
            assert forall|j: int| 0 <= j < i + 1 - start implies is_digit(
                #[trigger] body.take(i + 1 - start)[j],
            ) by {
                if j < i - start {
                    assert(body.take(i + 1 - start)[j] == body.take(i - start)[j]);
                }
            }
        }
        let d = (c as u32 - '0' as u32) as i128;
        assert(d == digit_val(c));
        assert(digits_value(body.take(i + 1 - start)) == acc * 10 + d);
        acc = acc * 10 + d;
        i = i + 1;
        if acc > bound {
            proof {
                if all_digits(body) {
                    lemma_digits_value_prefix(body, i - start);
                }
            }
            return None;
        }
    }
    assert(body.take(i - start) == body);
    if neg {
        Some((-acc) as i64)
    } else {
        Some(acc as i64)
    }
}

pub open spec fn digit_char(d: int) -> char {
    seq!['0', '1', '2', '3', '4', '5', '6', '7', '8', '9'][d]
}

proof fn lemma_digit_char(d: int)
    requires
        0 <= d < 10,
    ensures
        is_digit(digit_char(d)),
        digit_val(digit_char(d)) == d,
{
}

fn digit_char_exec(d: u64) -> (c: char)
    requires
        d < 10,
    ensures
        c == digit_char(d as int),
{
    match d {
        0 => '0',
        1 => '1',
        2 => '2',
        3 => '3',
        4 => '4',
        5 => '5',
        6 => '6',
        7 => '7',
        8 => '8',
        _ => '9',
    }
}

/// The decimal digits of `n`, without leading zeros.
pub open spec fn nat_str(n: nat) -> Seq<char>
    decreases n,
{
    if n < 10 {
        seq![digit_char(n as int)]
    } else {
        nat_str(n / 10).push(digit_char((n % 10) as int))
    }
}

/// The decimal form of `i` (`to_string` on an integer).
pub open spec fn int_str(i: int) -> Seq<char> {
    if i < 0 {
        seq!['-'] + nat_str((-i) as nat)
    } else {
        nat_str(i as nat)
    }
}

pub fn u64_chars(n: u64) -> (r: Vec<char>)
    ensures
        r@ == nat_str(n as nat),
    decreases n,
{
    let c = digit_char_exec(n % 10);
    if n < 10 {
        let mut r = Vec::new();
        r.push(c);
        assert(r@ =~= seq![digit_char(n as int)]);
        r
    } else {
        let mut r = u64_chars(n / 10);
        r.push(c);
        r
    }
}

pub fn i64_chars(n: i64) -> (r: Vec<char>)
    ensures
        r@ == int_str(n as int),
{
    if n < 0 {
        let m: u64 = (0i128 - (n as i128)) as u64;
        let digits = u64_chars(m);
        let mut r = Vec::new();
        r.push('-');
        append_chars(&mut r, &digits);
        assert(r@ =~= seq!['-'] + nat_str((-n) as nat));
        r
    } else {
        u64_chars(n as u64)
    }
}

proof fn lemma_nat_str_digits(n: nat)
    ensures
        all_digits(nat_str(n)),
        nat_str(n).len() >= 1,
        nat_str(n)[0] != '0' || n == 0,
        digits_value(nat_str(n)) == n,
    decreases n,
{
    if n < 10 {
        lemma_digit_char(n as int);
        assert(nat_str(n).drop_last() =~= Seq::<char>::empty());
        assert(digits_value(nat_str(n)) == digits_value(nat_str(n).drop_last()) * 10 + digit_val(
            nat_str(n).last(),
        ));
        assert(digits_value(Seq::<char>::empty()) == 0);
    }
    if n >= 10 {
        lemma_nat_str_digits(n / 10);
        lemma_digit_char((n % 10) as int);
        let s = nat_str(n);
        assert(s.drop_last() == nat_str(n / 10));
        assert(s.last() == digit_char((n % 10) as int));
        assert((n / 10) * 10 + n % 10 == n);
        assert(digits_value(s) == digits_value(s.drop_last()) * 10 + digit_val(s.last()));
        assert(digits_value(s) == (n / 10) as int * 10 + (n % 10) as int);
        assert forall|i: int| 0 <= i < s.len() implies is_digit(#[trigger] s[i]) by {
            if i < s.len() - 1 {
                assert(s[i] == nat_str(n / 10)[i]);
            }
        }
    }
}

/// Printing an integer in decimal and parsing it back gives the integer.
pub proof fn lemma_parse_int_str(i: int, lo: int, hi: int)
    requires
        lo <= i <= hi,
        lo < 0 || i >= 0,
    ensures
        parse_int(int_str(i), lo, hi) == Some(i),
{
    if i < 0 {
        let m = (-i) as nat;
        lemma_nat_str_digits(m);
        let s = int_str(i);
        assert(s.subrange(1, s.len() as int) == nat_str(m));
    } else {
        lemma_nat_str_digits(i as nat);
        assert(nat_str(i as nat)[0] != '-' && nat_str(i as nat)[0] != '+') by {
            assert(is_digit(nat_str(i as nat)[0]));
        }
    }
}


// ------------------------------------------------------------------
// Case mapping, joining, lines
// ------------------------------------------------------------------

/// What `str::to_uppercase` returns for `s` (full Unicode case mapping).
pub uninterp spec fn spec_to_uppercase(s: Seq<char>) -> Seq<char>;

/// What `str::to_lowercase` returns for `s` (full Unicode case mapping).
pub uninterp spec fn spec_to_lowercase(s: Seq<char>) -> Seq<char>;

/// Every character of `s` is ASCII.
pub open spec fn all_ascii(s: Seq<char>) -> bool {
    forall|k: int| 0 <= k < s.len() ==> (#[trigger] s[k]) <= '\u{7f}'
}

/// The ASCII upper case of `c`: `a`..`z` become `A`..`Z`, all else stays.
pub open spec fn ascii_upper_char(c: char) -> char {
    if 'a' <= c && c <= 'z' {
        ((c as u32) - 32) as char
    } else {
        c
    }
}

/// The ASCII lower case of `c`: `A`..`Z` become `a`..`z`, all else stays.
pub open spec fn ascii_lower_char(c: char) -> char {
    if 'A' <= c && c <= 'Z' {
        ((c as u32) + 32) as char
    } else {
        c
    }
}

pub open spec fn ascii_upper(s: Seq<char>) -> Seq<char> {
    Seq::new(s.len(), |k: int| ascii_upper_char(s[k]))
}

pub open spec fn ascii_lower(s: Seq<char>) -> Seq<char> {
    Seq::new(s.len(), |k: int| ascii_lower_char(s[k]))
}

/// `s` in upper case: spelled out for ASCII text, named beyond it.
pub open spec fn to_upper(s: Seq<char>) -> Seq<char> {
    if all_ascii(s) {
        ascii_upper(s)
    } else {
        spec_to_uppercase(s)
    }
}

/// `s` in lower case: spelled out for ASCII text, named beyond it.
pub open spec fn to_lower(s: Seq<char>) -> Seq<char> {
    if all_ascii(s) {
        ascii_lower(s)
    } else {
        spec_to_lowercase(s)
    }
}

/// `str::to_uppercase`.  Its result is named; of ASCII text, where the
/// Unicode mapping maps each letter `a`..`z` to `A`..`Z` and keeps every
/// other character, the result is stated.
#[verifier::external_body]
fn str_to_uppercase(s: &str) -> (r: String)
    ensures
        r@ == spec_to_uppercase(s@),
        all_ascii(s@) ==> r@ == ascii_upper(s@),
{
    s.to_uppercase()
}

/// `str::to_lowercase`.  Its result is named; of ASCII text, where the
/// Unicode mapping maps each letter `A`..`Z` to `a`..`z` and keeps every
/// other character, the result is stated.
#[verifier::external_body]
fn str_to_lowercase(s: &str) -> (r: String)
    ensures
        r@ == spec_to_lowercase(s@),
        all_ascii(s@) ==> r@ == ascii_lower(s@),
{
    s.to_lowercase()
}

pub fn upper_chars(s: &[char]) -> (r: Vec<char>)
    ensures
        r@ == to_upper(s@),
{
    let st = string_of(s);
    let u = str_to_uppercase(st.as_str());
    chars_of(u.as_str())
}

pub fn lower_chars(s: &[char]) -> (r: Vec<char>)
    ensures
        r@ == to_lower(s@),
{
    let st = string_of(s);
    let u = str_to_lowercase(st.as_str());
    chars_of(u.as_str())
}

/// `s` contains the string literal `lit`.
pub fn has_lit(s: &[char], lit: &str) -> (r: bool)
    ensures
        r == contains(s@, lit@),
{
    let p = chars_of(lit);
    contains_chars(s, &p)
}

/// The pieces joined with `sep` between them (`join` on a slice of strings).
pub open spec fn join(parts: Seq<Seq<char>>, sep: Seq<char>) -> Seq<char>
    decreases parts.len(),
{
    if parts.len() == 0 {
        Seq::empty()
    } else if parts.len() == 1 {
        parts[0]
    } else {
        join(parts.drop_last(), sep) + sep + parts.last()
    }
}

pub fn join_chars(parts: &[Vec<char>], sep: &[char]) -> (r: Vec<char>)
    ensures
        r@ == join(views(parts@), sep@),
{
    let mut r: Vec<char> = Vec::new();
    let mut i: usize = 0;
    while i < parts.len()
        invariant
            i <= parts@.len(),
            r@ == join(views(parts@).take(i as int), sep@),
        decreases parts@.len() - i,
    {
        let ghost v = views(parts@);
        assert(v.take(i + 1).drop_last() == v.take(i as int));
        assert(v.take(i + 1).last() == parts@[i as int]@);
        if i > 0 {
            append_chars(&mut r, sep);
        } else {
            assert(v.take(1)[0] == parts@[0]@);
        }
        append_chars(&mut r, &parts[i]);
        i = i + 1;
    }
    assert(views(parts@).take(i as int) == views(parts@));
    r
}

/// The trimmed pieces of `p` that are not empty, in order.
pub open spec fn nonempty_trimmed(p: Seq<Seq<char>>) -> Seq<Seq<char>>
    decreases p.len(),
{
    if p.len() == 0 {
        Seq::empty()
    } else {
        let r = nonempty_trimmed(p.drop_last());
        if trim(p.last()).len() > 0 {
            r.push(trim(p.last()))
        } else {
            r
        }
    }
}

/// Keeping the nonempty trimmed pieces of two runs of pieces is keeping
/// those of each.
pub proof fn lemma_nonempty_trimmed_append(x: Seq<Seq<char>>, y: Seq<Seq<char>>)
    ensures
        nonempty_trimmed(x + y) == nonempty_trimmed(x) + nonempty_trimmed(y),
    decreases y.len(),
{
    if y.len() == 0 {
        assert(x + y =~= x);
        assert(nonempty_trimmed(x) + Seq::<Seq<char>>::empty() =~= nonempty_trimmed(x));
    } else {
        lemma_nonempty_trimmed_append(x, y.drop_last());
        assert((x + y).drop_last() =~= x + y.drop_last());
        assert((x + y).last() == y.last());
        let nx = nonempty_trimmed(x);
        let ny = nonempty_trimmed(y.drop_last());
        assert((nx + ny).push(trim(y.last())) =~= nx + ny.push(trim(y.last())));
    }
}

/// The lines of text that holds the line `h` between line ends: the lines
/// before it, `h` trimmed, and the lines after it.
pub proof fn lemma_text_lines_around(a: Seq<char>, h: Seq<char>, b: Seq<char>)
    requires
        forall|k: int| 0 <= k < h.len() ==> h[k] != '\n',
        trim(h).len() > 0,
    ensures
        text_lines(a + seq!['\n'] + h + seq!['\n'] + b) == text_lines(a) + seq![trim(h)] + text_lines(b),
{
    lemma_split_char_around(a, h, b, '\n');
    let sa = split_char(a, '\n');
    let sb = split_char(b, '\n');
    lemma_nonempty_trimmed_append(sa + seq![h], sb);
    lemma_nonempty_trimmed_append(sa, seq![h]);
    assert(seq![h].drop_last() =~= Seq::<Seq<char>>::empty());
    assert(seq![h].last() == h);
    assert(nonempty_trimmed(Seq::<Seq<char>>::empty()).len() == 0);
    assert(nonempty_trimmed(seq![h]) =~= seq![trim(h)]);
}

/// The lines of `t` split at `\n`, trimmed, empty ones left out.
pub open spec fn text_lines(t: Seq<char>) -> Seq<Seq<char>> {
    nonempty_trimmed(split_char(t, '\n'))
}

/// The kept lines are nonempty and already trimmed.
pub proof fn lemma_nonempty_trimmed(p: Seq<Seq<char>>)
    ensures
        forall|k: int|
            0 <= k < nonempty_trimmed(p).len() ==> (#[trigger] nonempty_trimmed(p)[k]).len() > 0
                && trim(nonempty_trimmed(p)[k]) == nonempty_trimmed(p)[k],
    decreases p.len(),
{
    if p.len() > 0 {
        lemma_nonempty_trimmed(p.drop_last());
        lemma_trim_idempotent(p.last());
        let r = nonempty_trimmed(p.drop_last());
        assert forall|k: int| 0 <= k < nonempty_trimmed(p).len() implies (
        #[trigger] nonempty_trimmed(p)[k]).len() > 0 && trim(nonempty_trimmed(p)[k])
            == nonempty_trimmed(p)[k] by {
            if k < r.len() {
                assert(nonempty_trimmed(p)[k] == r[k]);
            }
        }
    }
}

proof fn lemma_trim_start_idem(s: Seq<char>)
    ensures
        trim_start(trim_start(s)) == trim_start(s),
    decreases s.len(),
{
    if s.len() > 0 && is_ws(s[0]) {
        lemma_trim_start_idem(s.subrange(1, s.len() as int));
    }
}

proof fn lemma_trim_end_idem(s: Seq<char>)
    ensures
        trim_end(trim_end(s)) == trim_end(s),
    decreases s.len(),
{
    if s.len() > 0 && is_ws(s.last()) {
        lemma_trim_end_idem(s.drop_last());
    }
}

proof fn lemma_trim_end_keeps_start(s: Seq<char>)
    requires
        s.len() == 0 || !is_ws(s[0]),
    ensures
        trim_start(trim_end(s)) == trim_end(s),
    decreases s.len(),
{
    if s.len() > 0 && is_ws(s.last()) {
        if s.len() > 1 {
            assert(s.drop_last()[0] == s[0]);
        }
        lemma_trim_end_keeps_start(s.drop_last());
    }
}

/// Trimming twice is trimming once.
pub proof fn lemma_trim_idempotent(s: Seq<char>)
    ensures
        trim(trim(s)) == trim(s),
{
    lemma_trim_start_props(s);
    lemma_trim_end_keeps_start(trim_start(s));
    lemma_trim_end_idem(trim_start(s));
}

pub fn lines_of(t: &[char]) -> (r: Vec<Vec<char>>)
    ensures
        views(r@) == text_lines(t@),
{
    let pieces = split_on(t, '\n');
    let mut r: Vec<Vec<char>> = Vec::new();
    let mut i: usize = 0;
    while i < pieces.len()
        invariant
            i <= pieces@.len(),
            views(r@) == nonempty_trimmed(views(pieces@).take(i as int)),
        decreases pieces@.len() - i,
    {
        let ghost v = views(pieces@);
        assert(v.take(i + 1).drop_last() == v.take(i as int));
        assert(v.take(i + 1).last() == pieces@[i as int]@);
        let tl = trim_chars(&pieces[i]);
        if tl.len() > 0 {
            let ghost before = views(r@);
            r.push(tl);
            assert(views(r@) =~= before.push(tl@));
        }
        i = i + 1;
    }
    assert(views(pieces@).take(i as int) == views(pieces@));
    r
}

} // verus!
