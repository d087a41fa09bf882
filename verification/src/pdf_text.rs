//! The text of a PDF file: string operands, numbers, and the content
//! streams read operator by operator.

use vstd::prelude::*;
use crate::text::{
    char_is_digit, char_is_hex, char_is_ws, chars_eq, contains, digit_val, digits_value, is_digit, is_hex, is_ws,
    join, join_chars, split_whitespace, split_ws, trim, trim_chars, views, copy_range, chars_of,
    contains_chars, starts_with, starts_with_chars, string_of,
};
use crate::lading::opt_str;
use crate::cmap::{hex_val, Table};
use crate::pdf_objects::{StreamV, index_streams, opt_int, pdf_streams, stream_views, utf8_lossy, lossy_chars};
use crate::pdf_fonts::{
    build_fonts, is_word, FontCtx, FontDict, FontsV, PageV, ctx_ok, fd_get, fd_view, fonts_info, page_lookup, pages_view,
    per_font, twobyte,
};

verus! {

// ------------------------------------------------------------------
// String operands
// ------------------------------------------------------------------

/// The character that an escape `\c` in a string stands for.
pub open spec fn unescape(c: char) -> char {
    if c == 'n' {
        '\n'
    } else if c == 'r' {
        '\r'
    } else if c == 't' {
        '\t'
    } else {
        c
    }
}

/// A parenthesized string read from `i` with `depth` parentheses open:
/// the characters so far and the index past the string.  A backslash
/// and the character after it are one escaped character: `\n`, `\r` and
/// `\t` stand for line feed, carriage return and tab, and any other
/// character after a backslash (`\\`, `\(`, `\)` among them) stands for
/// itself and neither opens nor closes.  Every other `(` opens a level and
/// every other `)` closes one; the string ends where the first level closes.
pub open spec fn paren_loop(c: Seq<char>, len: int, i: int, depth: int, acc: Seq<char>) -> (Seq<char>, int)
    decreases len - i,
{
    if !(i < len && depth > 0) {
        (acc, i)
    } else {
        let opens = c[i] == '(';
        let closes = c[i] == ')';
        let d2 = if opens {
            depth + 1
        } else if closes {
            depth - 1
        } else {
            depth
        };
        if closes && d2 == 0 {
            (acc, i + 1)
        } else if c[i] == '\\' && i + 1 < len {
            paren_loop(c, len, i + 2, d2, acc.push(unescape(c[i + 1])))
        } else {
            paren_loop(c, len, i + 1, d2, acc.push(c[i]))
        }
    }
}

/// The string that opens with `(` at `i`: its characters, escapes
/// resolved, and the index past its closing `)`.
pub open spec fn paren_string(c: Seq<char>, i: int, len: int) -> (Seq<char>, int) {
    paren_loop(c, len, i + 1, 1, seq![])
}

/// Reading the string from `i` with `depth` parentheses open would look
/// at a character past the end of `c` (where reading panics).
pub open spec fn paren_overrun(c: Seq<char>, len: int, i: int, depth: int) -> bool
    decreases len - i,
{
    if !(i < len && depth > 0) {
        false
    } else if i >= c.len() {
        true
    } else {
        let opens = c[i] == '(';
        let closes = c[i] == ')';
        let d2 = if opens {
            depth + 1
        } else if closes {
            depth - 1
        } else {
            depth
        };
        if closes && d2 == 0 {
            false
        } else if c[i] == '\\' && i + 1 < len {
            i + 1 >= c.len() || paren_overrun(c, len, i + 2, d2)
        } else {
            paren_overrun(c, len, i + 1, d2)
        }
    }
}

proof fn lemma_no_paren_overrun(c: Seq<char>, len: int, i: int, depth: int)
    requires
        len <= c.len(),
    ensures
        !paren_overrun(c, len, i, depth),
    decreases len - i,
{
    if i < len && depth > 0 {
        let opens = c[i] == '(';
        let closes = c[i] == ')';
        let d2 = if opens {
            depth + 1
        } else if closes {
            depth - 1
        } else {
            depth
        };
        if closes && d2 == 0 {
        } else if c[i] == '\\' && i + 1 < len {
            lemma_no_paren_overrun(c, len, i + 2, d2);
        } else {
            lemma_no_paren_overrun(c, len, i + 1, d2);
        }
    }
}

/// Extracts a parenthesized string from PDF content, handling escapes, and
/// advances `i` past the closing parenthesis.
pub fn extract_paren_string(chars: &[char], i: &mut usize, len: usize) -> (r: Vec<char>)
    requires
        *old(i) < usize::MAX,
        !paren_overrun(chars@, len as int, *old(i) + 1, 1),
    ensures
        (r@, *final(i) as int) == paren_string(chars@, *old(i) as int, len as int),
        *old(i) < *final(i),
        *old(i) < len ==> *final(i) <= len,
{
    let ghost i0 = *i;
    let mut depth: usize = 1;
    let mut result: Vec<char> = Vec::new();
    *i = *i + 1;
    while *i < len && depth > 0
        invariant
            i0 < *i,
            *i <= len || *i == i0 + 1,
            !paren_overrun(chars@, len as int, *i as int, depth as int),
            depth <= *i - i0,
            paren_string(chars@, i0 as int, len as int) == paren_loop(
                chars@,
                len as int,
                *i as int,
                depth as int,
                result@,
            ),
        ensures
            i0 < *i,
            *i <= len || *i == i0 + 1,
            paren_string(chars@, i0 as int, len as int) == (result@, *i as int),
        decreases len - *i,
    {
        let k = *i;
        let opens = chars[k] == '(';
        let closes = chars[k] == ')';
        if opens {
            depth = depth + 1;
        } else if closes {
            depth = depth - 1;
            if depth == 0 {
                *i = k + 1;
                break;
            }
        }
        if chars[k] == '\\' && k + 1 < len {
            let e = chars[k + 1];
            let u = if e == 'n' {
                '\n'
            } else if e == 'r' {
                '\r'
            } else if e == 't' {
                '\t'
            } else {
                e
            };
            result.push(u);
            *i = k + 2;
        } else {
            result.push(chars[k]);
            *i = k + 1;
        }
    }
    result
}

/// The hex digits of the string that opens with `<` at `i`, from index
/// `k` on, and the index of its closing `>` (or `len`).
pub open spec fn hex_digits(c: Seq<char>, len: int, k: int, acc: Seq<char>) -> (Seq<char>, int)
    decreases len - k,
{
    if k < len && c[k] != '>' {
        hex_digits(c, len, k + 1, if is_hex(c[k]) { acc.push(c[k]) } else { acc })
    } else {
        (acc, k)
    }
}

/// The bytes that pairs of hex digits give; an odd last digit is dropped.
pub open spec fn hex_pairs(h: Seq<char>) -> Seq<u8> {
    Seq::new(h.len() / 2, |k: int| (hex_val(h[2 * k]) * 16 + hex_val(h[2 * k + 1])) as u8)
}

/// The string `<...>` that opens at `i`: its bytes and the index past it.
pub open spec fn hex_string(c: Seq<char>, i: int, len: int) -> (Seq<u8>, int) {
    let d = hex_digits(c, len, i + 1, seq![]);
    (hex_pairs(d.0), if d.1 < len { d.1 + 1 } else { d.1 })
}

fn hex_digit(c: char) -> (v: u8)
    requires
        is_hex(c),
    ensures
        v as int == hex_val(c),
        v < 16,
{
    if '0' <= c && c <= '9' {
        (c as u32 - '0' as u32) as u8
    } else if 'a' <= c && c <= 'f' {
        (c as u32 - 'a' as u32 + 10) as u8
    } else {
        (c as u32 - 'A' as u32 + 10) as u8
    }
}

/// Reading hex digits from `k` would look at a character past the end of
/// `c` before a `>` (where reading panics).
pub open spec fn hex_overrun(c: Seq<char>, len: int, k: int) -> bool
    decreases len - k,
{
    if k < len {
        k >= c.len() || (c[k] != '>' && hex_overrun(c, len, k + 1))
    } else {
        false
    }
}

proof fn lemma_no_hex_overrun(c: Seq<char>, len: int, k: int)
    requires
        len <= c.len(),
    ensures
        !hex_overrun(c, len, k),
    decreases len - k,
{
    if k < len {
        lemma_no_hex_overrun(c, len, k + 1);
    }
}

/// Extracts a hex string `<XX XX>` from PDF content as bytes, and advances
/// `i` past the closing `>`.
pub fn extract_hex_string(chars: &[char], i: &mut usize, len: usize) -> (r: Vec<u8>)
    requires
        *old(i) < usize::MAX,
        !hex_overrun(chars@, len as int, *old(i) + 1),
    ensures
        (r@, *final(i) as int) == hex_string(chars@, *old(i) as int, len as int),
        *old(i) < *final(i),
        *old(i) < len ==> *final(i) <= len,
{
    let ghost i0 = *i;
    let mut hex: Vec<char> = Vec::new();
    *i = *i + 1;
    while *i < len && chars[*i] != '>'
        invariant
            i0 < *i,
            *i <= len || *i == i0 + 1,
            !hex_overrun(chars@, len as int, *i as int),
            forall|m: int| 0 <= m < hex@.len() ==> is_hex(#[trigger] hex@[m]),
            hex_digits(chars@, len as int, i0 + 1, seq![]) == hex_digits(
                chars@,
                len as int,
                *i as int,
                hex@,
            ),
        decreases len - *i,
    {
        if char_is_hex(chars[*i]) {
            hex.push(chars[*i]);
        }
        *i = *i + 1;
    }
    if *i < len {
        *i = *i + 1;
    }
    let mut out: Vec<u8> = Vec::new();
    let mut k: usize = 0;
    while k + 1 < hex.len()
        invariant
            k % 2 == 0,
            k <= hex@.len(),
            forall|m: int| 0 <= m < hex@.len() ==> is_hex(#[trigger] hex@[m]),
            out@ == hex_pairs(hex@).take(k as int / 2),
        decreases hex@.len() - k,
    {
        let hi = hex_digit(hex[k]);
        let lo = hex_digit(hex[k + 1]);
        out.push(hi * 16 + lo);
        proof {
            let hp = hex_pairs(hex@);
            assert(hp[k as int / 2] == (hex_val(hex@[k as int]) * 16 + hex_val(hex@[k + 1])) as u8);
            assert(out@ =~= hp.take(k as int / 2 + 1));
        }
        k = k + 2;
    }
    assert(hex_pairs(hex@).take(k as int / 2) =~= hex_pairs(hex@));
    out
}

// ------------------------------------------------------------------
// Numbers before an operator
// ------------------------------------------------------------------

pub open spec fn num_char(c: char) -> bool {
    is_digit(c) || c == '.' || c == '-'
}

pub open spec fn skip_back_ws(c: Seq<char>, j: int) -> int
    decreases j + 1,
{
    if j >= 0 && is_ws(c[j]) {
        skip_back_ws(c, j - 1)
    } else {
        j
    }
}

pub open spec fn skip_back_num(c: Seq<char>, j: int) -> int
    decreases j + 1,
{
    if j >= 0 && num_char(c[j]) {
        skip_back_num(c, j - 1)
    } else {
        j
    }
}

/// The number written right before the operator at `i`, where there is one.
pub open spec fn operand_before(c: Seq<char>, i: int) -> Option<Seq<char>> {
    let num_end = skip_back_ws(c, i - 1) + 1;
    let num_start = skip_back_num(c, num_end - 1) + 1;
    if num_start < num_end {
        Some(c.subrange(num_start, num_end))
    } else {
        None
    }
}

proof fn lemma_skip_back_ws(c: Seq<char>, j: int)
    requires
        -1 <= j < c.len(),
    ensures
        -1 <= skip_back_ws(c, j) <= j,
    decreases j + 1,
{
    if j >= 0 && is_ws(c[j]) {
        lemma_skip_back_ws(c, j - 1);
    }
}

proof fn lemma_skip_back_num(c: Seq<char>, j: int)
    requires
        -1 <= j < c.len(),
    ensures
        -1 <= skip_back_num(c, j) <= j,
        forall|m: int| skip_back_num(c, j) < m <= j ==> num_char(#[trigger] c[m]),
    decreases j + 1,
{
    if j >= 0 && num_char(c[j]) {
        lemma_skip_back_num(c, j - 1);
    }
}

fn operand_before_exec(c: &[char], i: usize) -> (r: Option<Vec<char>>)
    requires
        i <= c@.len(),
    ensures
        match r {
            Some(v) => operand_before(c@, i as int) == Some(v@),
            None => operand_before(c@, i as int) is None,
        },
{
    let mut j: usize = i;
    while j > 0 && char_is_ws(c[j - 1])
        invariant
            j <= i <= c@.len(),
            skip_back_ws(c@, i - 1) == skip_back_ws(c@, j - 1),
        decreases j,
    {
        j = j - 1;
    }
    let num_end = j;
    while j > 0 && (char_is_digit(c[j - 1]) || c[j - 1] == '.' || c[j - 1] == '-')
        invariant
            j <= num_end <= c@.len(),
            skip_back_num(c@, num_end - 1) == skip_back_num(c@, j - 1),
        decreases j,
    {
        j = j - 1;
    }
    if j < num_end {
        Some(crate::text::copy_range(c, j, num_end))
    } else {
        None
    }
}

// ------------------------------------------------------------------
// Decimal numbers
// ------------------------------------------------------------------

pub open spec fn pow10(n: nat) -> int
    decreases n,
{
    if n == 0 {
        1
    } else {
        10 * pow10((n - 1) as nat)
    }
}

/// Scanning a decimal: still well formed, its digits, how many `.`, and
/// how many digits after the `.`.
pub open spec fn dec_scan(s: Seq<char>) -> (bool, Seq<char>, nat, nat)
    decreases s.len(),
{
    if s.len() == 0 {
        (true, seq![], 0, 0)
    } else {
        let p = dec_scan(s.drop_last());
        let c = s.last();
        if is_digit(c) {
            (p.0, p.1.push(c), p.2, if p.2 > 0 { p.3 + 1 } else { p.3 })
        } else if c == '.' {
            (p.0 && p.2 == 0, p.1, p.2 + 1, p.3)
        } else {
            (false, p.1, p.2, p.3)
        }
    }
}

/// A decimal number `m / 10^scale`: an optional `-`, digits with at most
/// one `.`, and at least one digit.
pub open spec fn dec_parse(s: Seq<char>) -> Option<(int, nat)> {
    let neg = s.len() > 0 && s[0] == '-';
    let body = if neg {
        s.subrange(1, s.len() as int)
    } else {
        s
    };
    let sc = dec_scan(body);
    if sc.0 && 1 <= sc.1.len() {
        Some(
            (
                if neg {
                    -digits_value(sc.1)
                } else {
                    digits_value(sc.1)
                },
                sc.3,
            ),
        )
    } else {
        None
    }
}

/// A decimal number as read: its sign, its digits, and how many of them
/// follow the `.`.
pub struct Dec {
    pub neg: bool,
    pub digits: Vec<char>,
    pub scale: usize,
}

/// The number `m / 10^scale` that a `Dec` stands for.
pub open spec fn dec_value(d: Dec) -> (int, nat) {
    (
        if d.neg {
            -digits_value(d.digits@)
        } else {
            digits_value(d.digits@)
        },
        d.scale as nat,
    )
}

pub open spec fn dec_wf(d: Dec) -> bool {
    &&& forall|k: int| 0 <= k < d.digits@.len() ==> is_digit(#[trigger] d.digits@[k])
    &&& d.scale <= d.digits@.len()
}

pub open spec fn dec_view(o: Option<Dec>) -> Option<(int, nat)> {
    match o {
        Some(d) => Some(dec_value(d)),
        None => None,
    }
}

proof fn lemma_dec_scan_digits(s: Seq<char>)
    ensures
        forall|k: int| 0 <= k < dec_scan(s).1.len() ==> is_digit(#[trigger] dec_scan(s).1[k]),
        dec_scan(s).3 <= dec_scan(s).1.len(),
    decreases s.len(),
{
    if s.len() > 0 {
        lemma_dec_scan_digits(s.drop_last());
    }
}

/// Parses a decimal number as `dec_parse` says.
pub fn dec_parse_exec(s: &[char]) -> (r: Option<Dec>)
    ensures
        dec_view(r) == dec_parse(s@),
        r matches Some(d) ==> dec_wf(d),
{
    let neg = s.len() > 0 && s[0] == '-';
    let start: usize = if neg {
        1
    } else {
        0
    };
    let ghost body = s@.subrange(start as int, s@.len() as int);
    assert(body == (if neg {
        s@.subrange(1, s@.len() as int)
    } else {
        s@
    }));
    let mut valid = true;
    let mut digits: Vec<char> = Vec::new();
    let mut dots: usize = 0;
    let mut frac: usize = 0;
    let mut k: usize = start;
    assert(body.take(0) =~= Seq::<char>::empty());
    while k < s.len()
        invariant
            start <= k <= s@.len(),
            body == s@.subrange(start as int, s@.len() as int),
            dec_scan(body.take(k - start)) == (valid, digits@, dots as nat, frac as nat),
            frac <= k,
            dots <= k,
            digits@.len() <= k,
        decreases s@.len() - k,
    {
        let c = s[k];
        assert(body.take(k + 1 - start).drop_last() =~= body.take(k - start));
        assert(body.take(k + 1 - start).last() == c);
        if char_is_digit(c) {
            digits.push(c);
            if dots > 0 {
                frac = frac + 1;
            }
        } else if c == '.' {
            valid = valid && dots == 0;
            dots = dots + 1;
        } else {
            valid = false;
        }
        k = k + 1;
    }
    assert(body.take(k - start) =~= body);
    if valid && digits.len() >= 1 {
        proof {
            lemma_dec_scan_digits(body);
        }
        Some(Dec { neg, digits, scale: frac })
    } else {
        None
    }
}


// ------------------------------------------------------------------
// Comparing positions
// ------------------------------------------------------------------

pub open spec fn abs(x: int) -> int {
    if x < 0 {
        -x
    } else {
        x
    }
}

/// `v < -1`.
pub open spec fn below_minus_one(v: (int, nat)) -> bool {
    v.0 < -pow10(v.1)
}

/// `|v| < 0.5`.
pub open spec fn under_half(v: (int, nat)) -> bool {
    2 * abs(v.0) < pow10(v.1)
}

/// `|y - p| > 1`.
pub open spec fn moved_row(y: (int, nat), p: (int, nat)) -> bool {
    let s: nat = if y.1 >= p.1 {
        y.1
    } else {
        p.1
    };
    abs(y.0 * pow10((s - y.1) as nat) - p.0 * pow10((s - p.1) as nat)) > pow10(s)
}

/// The digit of the number with digits `d`, `sc` of them after the `.`, at
/// place `j` of a grid with `l` places before the `.`; 0 where it has none.
pub open spec fn gdig(d: Seq<char>, sc: int, l: int, j: int) -> int {
    let i = j - l + d.len() - sc;
    if 0 <= i < d.len() {
        digit_val(d[i])
    } else {
        0
    }
}

/// The first `k` places of that grid read as a whole number.
pub open spec fn gval(d: Seq<char>, sc: int, l: int, k: int) -> int
    decreases k,
{
    if k <= 0 {
        0
    } else {
        10 * gval(d, sc, l, k - 1) + gdig(d, sc, l, k - 1)
    }
}

/// One unit, counted in the places of the grid read so far.
pub open spec fn unit_so_far(l: int, k: int) -> int {
    if k >= l {
        pow10((k - l) as nat)
    } else {
        0
    }
}

/// `ca` times the first number less `cb` times the second, less one unit,
/// over the first `k` places of the grid, computed place by place.
pub open spec fn sweep(a: Seq<char>, sa: int, ca: int, b: Seq<char>, sb: int, cb: int, l: int, k: int) -> int
    decreases k,
{
    if k <= 0 {
        if l == 0 {
            -1int
        } else {
            0int
        }
    } else {
        10 * sweep(a, sa, ca, b, sb, cb, l, k - 1) + ca * gdig(a, sa, l, k - 1) - cb * gdig(b, sb, l, k - 1) - (
        if k == l {
            1int
        } else {
            0int
        })
    }
}

pub open spec fn clamp5(x: int) -> int {
    if x > 5 {
        5
    } else if x < -5 {
        -5
    } else {
        x
    }
}

proof fn lemma_clamp5_step(x: int, e: int)
    requires
        -37 <= e <= 37,
    ensures
        clamp5(10 * x + e) == clamp5(10 * clamp5(x) + e),
{
}

proof fn lemma_gval(d: Seq<char>, sc: int, l: int, k: int)
    requires
        0 <= sc <= d.len(),
        l >= d.len() - sc,
        0 <= k,
    ensures
        ({
            let off = l - (d.len() - sc);
            gval(d, sc, l, k) == if k <= off {
                0
            } else if k <= off + d.len() {
                digits_value(d.take(k - off))
            } else {
                digits_value(d) * pow10((k - off - d.len()) as nat)
            }
        }),
    decreases k,
{
    let off = l - (d.len() - sc);
    if k > 0 {
        lemma_gval(d, sc, l, k - 1);
        let j = k - 1;
        let i = j - off;
        assert(gval(d, sc, l, k) == 10 * gval(d, sc, l, j) + gdig(d, sc, l, j));
        if k <= off {
            assert(gdig(d, sc, l, j) == 0);
        } else if k <= off + d.len() {
            assert(gdig(d, sc, l, j) == digit_val(d[i]));
            assert(d.take(i + 1).drop_last() =~= d.take(i));
            assert(d.take(i + 1).last() == d[i]);
            assert(digits_value(d.take(i + 1)) == digits_value(d.take(i)) * 10 + digit_val(d[i]));
            if j == off {
                assert(d.take(0) =~= Seq::<char>::empty());
                assert(digits_value(d.take(0)) == 0);
            }
        } else {
            assert(gdig(d, sc, l, j) == 0);
            let e = (k - off - d.len()) as nat;
            let x = digits_value(d);
            assert(pow10(e) == 10 * pow10((e - 1) as nat));
            let p = pow10((e - 1) as nat);
            if j == off + d.len() {
                assert(d.take(d.len() as int) =~= d);
                assert(gval(d, sc, l, j) == x);
                assert(p == 1);
                assert(x * (10 * p) == 10 * x) by (nonlinear_arith)
                    requires
                        p == 1,
                ;
            } else {
                assert(gval(d, sc, l, j) == x * p);
                assert(10 * (x * p) == x * (10 * p)) by (nonlinear_arith);
            }
        }
    }
}

proof fn lemma_gval_full(d: Seq<char>, sc: int, l: int, big_s: int)
    requires
        0 <= sc <= d.len(),
        l >= d.len() - sc,
        big_s >= sc,
    ensures
        gval(d, sc, l, l + big_s) == digits_value(d) * pow10((big_s - sc) as nat),
{
    lemma_gval(d, sc, l, l + big_s);
    if big_s == sc {
        assert(d.take(d.len() as int) =~= d);
    }
}

proof fn lemma_sweep(a: Seq<char>, sa: int, ca: int, b: Seq<char>, sb: int, cb: int, l: int, k: int)
    requires
        l >= 0,
        k >= 0,
    ensures
        sweep(a, sa, ca, b, sb, cb, l, k) == ca * gval(a, sa, l, k) - cb * gval(b, sb, l, k) - unit_so_far(l, k),
    decreases k,
{
    if k > 0 {
        lemma_sweep(a, sa, ca, b, sb, cb, l, k - 1);
        let ga = gval(a, sa, l, k - 1);
        let gb = gval(b, sb, l, k - 1);
        let da = gdig(a, sa, l, k - 1);
        let db = gdig(b, sb, l, k - 1);
        let t = unit_so_far(l, k - 1);
        let e: int = if k == l {
            1
        } else {
            0
        };
        assert(unit_so_far(l, k) == 10 * t + e) by {
            if k - 1 >= l {
                assert(pow10((k - l) as nat) == 10 * pow10((k - 1 - l) as nat));
            }
        }
        assert(10 * (ca * ga - cb * gb - t) + ca * da - cb * db - e == ca * (10 * ga + da) - cb * (10 * gb
            + db) - (10 * t + e)) by (nonlinear_arith);
    }
}

/// What a sweep over a whole grid gives: the two numbers, each brought to
/// `big_s` places after the `.`, weighed by `ca` and `cb`, less one unit.
proof fn lemma_sweep_full(a: Seq<char>, sa: int, ca: int, b: Seq<char>, sb: int, cb: int, l: int, big_s: int)
    requires
        0 <= sa <= a.len(),
        0 <= sb <= b.len(),
        l >= a.len() - sa,
        l >= b.len() - sb,
        big_s >= sa,
        big_s >= sb,
    ensures
        sweep(a, sa, ca, b, sb, cb, l, l + big_s) == ca * (digits_value(a) * pow10((big_s - sa) as nat)) - cb
            * (digits_value(b) * pow10((big_s - sb) as nat)) - pow10(big_s as nat),
{
    lemma_sweep(a, sa, ca, b, sb, cb, l, l + big_s);
    lemma_gval_full(a, sa, l, big_s);
    lemma_gval_full(b, sb, l, big_s);
}

fn gdig_exec(d: &Dec, l: u128, j: u128) -> (r: i16)
    requires
        dec_wf(*d),
        j <= 0x1_0000_0000_0000_0000_0000,
    ensures
        r == gdig(d.digits@, d.scale as int, l as int, j as int),
        0 <= r <= 9,
{
    let len = d.digits.len() as u128;
    let sc = d.scale as u128;
    let p = j + (len - sc);
    if p >= l && p - l < len {
        let i = (p - l) as usize;
        let c = d.digits[i];
        assert(is_digit(d.digits@[i as int]));
        (c as u32 - '0' as u32) as i16
    } else {
        0
    }
}

/// The sign of `ca` times `a` less `cb` times `b` less one unit, the two
/// brought to a grid of `l` places before the `.` and `n - l` after it;
/// given as that value clamped to -5..5.
fn sweep_exec(a: &Dec, ca: i16, b: &Dec, cb: i16, l: u128, n: u128) -> (r: i16)
    requires
        dec_wf(*a),
        dec_wf(*b),
        -2 <= ca <= 2,
        -2 <= cb <= 2,
        l <= n <= 0x1_0000_0000_0000_0000_0000,
    ensures
        r == clamp5(
            sweep(
                a.digits@,
                a.scale as int,
                ca as int,
                b.digits@,
                b.scale as int,
                cb as int,
                l as int,
                n as int,
            ),
        ),
{
    let mut c: i16 = if l == 0 {
        -1
    } else {
        0
    };
    let mut j: u128 = 0;
    while j < n
        invariant
            j <= n <= 0x1_0000_0000_0000_0000_0000,
            l <= n,
            dec_wf(*a),
            dec_wf(*b),
            -2 <= ca <= 2,
            -2 <= cb <= 2,
            c == clamp5(
                sweep(
                    a.digits@,
                    a.scale as int,
                    ca as int,
                    b.digits@,
                    b.scale as int,
                    cb as int,
                    l as int,
                    j as int,
                ),
            ),
        decreases n - j,
    {
        let da = gdig_exec(a, l, j);
        let db = gdig_exec(b, l, j);
        let t: i16 = if j + 1 == l {
            1
        } else {
            0
        };
        let ghost w = sweep(
            a.digits@,
            a.scale as int,
            ca as int,
            b.digits@,
            b.scale as int,
            cb as int,
            l as int,
            j as int,
        );
        assert(-18 <= ca * da <= 18) by (nonlinear_arith)
            requires
                -2 <= ca <= 2,
                0 <= da <= 9,
        ;
        assert(-18 <= cb * db <= 18) by (nonlinear_arith)
            requires
                -2 <= cb <= 2,
                0 <= db <= 9,
        ;
        proof {
            lemma_clamp5_step(w, ca * da - cb * db - t);
        }
        let v: i16 = 10 * c + ca * da - cb * db - t;
        c = if v > 5 {
            5
        } else if v < -5 {
            -5
        } else {
            v
        };
        j = j + 1;
    }
    c
}

proof fn lemma_signed_scale(neg: bool, x: int, p: int)
    ensures
        (if neg {
            -x
        } else {
            x
        }) * p == (if neg {
            -1int
        } else {
            1int
        }) * (x * p),
{
    assert((-x) * p == -1 * (x * p)) by (nonlinear_arith);
    assert(x * p == 1 * (x * p)) by (nonlinear_arith);
}

fn below_minus_one_exec(v: &Dec) -> (r: bool)
    requires
        dec_wf(*v),
    ensures
        r == below_minus_one(dec_value(*v)),
{
    let len = v.digits.len() as u128;
    let sc = v.scale as u128;
    let ca: i16 = if v.neg {
        1
    } else {
        -1
    };
    let c = sweep_exec(v, ca, v, 0, len - sc, len);
    proof {
        lemma_sweep_full(
            v.digits@,
            v.scale as int,
            ca as int,
            v.digits@,
            v.scale as int,
            0,
            len - sc,
            sc as int,
        );
        assert(pow10(0) == 1);
        let x = digits_value(v.digits@);
        assert(x * 1 == x);
        assert(ca * x == 1 * x || ca * x == -1 * x);
    }
    c > 0
}

fn under_half_exec(v: &Dec) -> (r: bool)
    requires
        dec_wf(*v),
    ensures
        r == under_half(dec_value(*v)),
{
    let len = v.digits.len() as u128;
    let sc = v.scale as u128;
    let c = sweep_exec(v, 2, v, 0, len - sc, len);
    proof {
        lemma_sweep_full(v.digits@, v.scale as int, 2, v.digits@, v.scale as int, 0, len - sc, sc as int);
        assert(pow10(0) == 1);
        lemma_digits_nonneg(v.digits@);
    }
    c < 0
}

proof fn lemma_digits_nonneg(s: Seq<char>)
    requires
        forall|k: int| 0 <= k < s.len() ==> is_digit(#[trigger] s[k]),
    ensures
        digits_value(s) >= 0,
    decreases s.len(),
{
    if s.len() > 0 {
        let t = s.drop_last();
        assert forall|k: int| 0 <= k < t.len() implies is_digit(#[trigger] t[k]) by {
            assert(t[k] == s[k]);
        }
        lemma_digits_nonneg(t);
        assert(is_digit(s[s.len() - 1]));
    }
}

fn moved_row_exec(y: &Dec, p: &Dec) -> (r: bool)
    requires
        dec_wf(*y),
        dec_wf(*p),
    ensures
        r == moved_row(dec_value(*y), dec_value(*p)),
{
    let ly = y.digits.len() as u128 - y.scale as u128;
    let lp = p.digits.len() as u128 - p.scale as u128;
    let l = if ly >= lp {
        ly
    } else {
        lp
    };
    let s = if y.scale >= p.scale {
        y.scale as u128
    } else {
        p.scale as u128
    };
    let cy: i16 = if y.neg {
        -1
    } else {
        1
    };
    let cp: i16 = if p.neg {
        -1
    } else {
        1
    };
    let up = sweep_exec(y, cy, p, cp, l, l + s);
    let down = sweep_exec(y, -cy, p, -cp, l, l + s);
    proof {
        let xa = digits_value(y.digits@) * pow10((s - y.scale) as nat);
        let xb = digits_value(p.digits@) * pow10((s - p.scale) as nat);
        lemma_sweep_full(y.digits@, y.scale as int, cy as int, p.digits@, p.scale as int, cp as int, l as int, s as int);
        lemma_sweep_full(y.digits@, y.scale as int, -cy as int, p.digits@, p.scale as int, -cp as int, l as int, s as int);
        lemma_signed_scale(y.neg, digits_value(y.digits@), pow10((s - y.scale) as nat));
        lemma_signed_scale(p.neg, digits_value(p.digits@), pow10((s - p.scale) as nat));
        assert((-cy) * xa == -(cy * xa)) by (nonlinear_arith);
        assert((-cp) * xb == -(cp * xb)) by (nonlinear_arith);
    }
    up > 0 || down > 0
}

// ------------------------------------------------------------------
// Decoding string operands through a character map
// ------------------------------------------------------------------

pub open spec fn tlookup(t: Table, code: int, dflt: char) -> char {
    match t[code] {
        Some(ch) => ch,
        None => dflt,
    }
}

/// The one-byte code of a character: its code point cut to 16 bits.
pub open spec fn code1(c: char) -> int {
    ((c as u32) as u16) as int
}

/// The two-byte code of a pair of characters.
pub open spec fn code2(a: char, b: char) -> int {
    ((((a as u32) as u16) << 8u16) | ((b as u32) as u16)) as int
}

pub open spec fn code2b(a: u8, b: u8) -> int {
    (((a as u16) << 8u16) | (b as u16)) as int
}

/// Characters of a one-byte font: each code up to `0xFFFF` mapped.
pub open spec fn decode1_chars(r: Seq<char>, t: Table) -> Seq<char> {
    Seq::new(
        r.len(),
        |k: int|
            if (r[k] as u32) <= 0xFFFF {
                tlookup(t, code1(r[k]), r[k])
            } else {
                r[k]
            },
    )
}

/// Characters of a two-byte font: pairs mapped as one code, else each on
/// its own; an odd last one on its own.
pub open spec fn decode2_chars(r: Seq<char>, t: Table) -> Seq<char>
    decreases r.len(),
{
    if r.len() == 0 {
        seq![]
    } else if r.len() == 1 {
        seq![tlookup(t, code1(r[0]), r[0])]
    } else {
        let head = match t[code2(r[0], r[1])] {
            Some(ch) => seq![ch],
            None => seq![tlookup(t, code1(r[0]), r[0]), tlookup(t, code1(r[1]), r[1])],
        };
        head + decode2_chars(r.subrange(2, r.len() as int), t)
    }
}

pub open spec fn decode1_bytes(b: Seq<u8>, t: Table) -> Seq<char> {
    Seq::new(b.len(), |k: int| tlookup(t, b[k] as int, b[k] as char))
}

pub open spec fn decode2_bytes(b: Seq<u8>, t: Table) -> Seq<char>
    decreases b.len(),
{
    if b.len() == 0 {
        seq![]
    } else if b.len() == 1 {
        seq![tlookup(t, b[0] as int, b[0] as char)]
    } else {
        let head = match t[code2b(b[0], b[1])] {
            Some(ch) => seq![ch],
            None => seq![tlookup(t, b[0] as int, b[0] as char), tlookup(t, b[1] as int, b[1] as char)],
        };
        head + decode2_bytes(b.subrange(2, b.len() as int), t)
    }
}

fn tlookup_exec(t: &Vec<Option<char>>, code: usize, dflt: char) -> (r: char)
    requires
        t@.len() == 0x10000,
        code < 0x10000,
    ensures
        r == tlookup(t@, code as int, dflt),
{
    match t[code] {
        Some(ch) => ch,
        None => dflt,
    }
}

fn decode1_chars_exec(r: &[char], t: &Vec<Option<char>>) -> (out: Vec<char>)
    requires
        t@.len() == 0x10000,
    ensures
        out@ == decode1_chars(r@, t@),
{
    let mut out: Vec<char> = Vec::new();
    let mut k: usize = 0;
    while k < r.len()
        invariant
            k <= r@.len(),
            t@.len() == 0x10000,
            out@ == decode1_chars(r@, t@).take(k as int),
        decreases r@.len() - k,
    {
        let c = r[k];
        let ch = if (c as u32) <= 0xFFFF {
            tlookup_exec(t, ((c as u32) as u16) as usize, c)
        } else {
            c
        };
        out.push(ch);
        k = k + 1;
        assert(out@ =~= decode1_chars(r@, t@).take(k as int));
    }
    assert(decode1_chars(r@, t@).take(k as int) =~= decode1_chars(r@, t@));
    out
}

fn decode2_chars_exec(r: &[char], t: &Vec<Option<char>>) -> (out: Vec<char>)
    requires
        t@.len() == 0x10000,
    ensures
        out@ == decode2_chars(r@, t@),
{
    let mut out: Vec<char> = Vec::new();
    let mut k: usize = 0;
    assert(r@.subrange(0, r@.len() as int) =~= r@);
    while k < r.len()
        invariant
            k <= r@.len(),
            t@.len() == 0x10000,
            decode2_chars(r@, t@) == out@ + decode2_chars(r@.subrange(k as int, r@.len() as int), t@),
        decreases r@.len() - k,
    {
        let ghost rest = r@.subrange(k as int, r@.len() as int);
        let ghost before = out@;
        if k + 1 < r.len() {
            let a = r[k];
            let b = r[k + 1];
            let code: u16 = ((a as u32) as u16) << 8u16 | ((b as u32) as u16);
            assert(code as int == code2(rest[0], rest[1]));
            match t[code as usize] {
                Some(ch) => {
                    out.push(ch);
                },
                None => {
                    let c1 = tlookup_exec(t, ((a as u32) as u16) as usize, a);
                    let c2 = tlookup_exec(t, ((b as u32) as u16) as usize, b);
                    out.push(c1);
                    out.push(c2);
                },
            }
            assert(rest.subrange(2, rest.len() as int) =~= r@.subrange(k + 2, r@.len() as int));
            k = k + 2;
        } else {
            let a = r[k];
            let c1 = tlookup_exec(t, ((a as u32) as u16) as usize, a);
            out.push(c1);
            assert(rest.len() == 1);
            k = k + 1;
        }
        assert(out@ + decode2_chars(r@.subrange(k as int, r@.len() as int), t@) =~= before
            + decode2_chars(rest, t@));
    }
    assert(decode2_chars(r@.subrange(k as int, r@.len() as int), t@) == Seq::<char>::empty());
    assert(out@ + Seq::<char>::empty() =~= out@);
    out
}

fn decode1_bytes_exec(b: &[u8], t: &Vec<Option<char>>) -> (out: Vec<char>)
    requires
        t@.len() == 0x10000,
    ensures
        out@ == decode1_bytes(b@, t@),
{
    let mut out: Vec<char> = Vec::new();
    let mut k: usize = 0;
    while k < b.len()
        invariant
            k <= b@.len(),
            t@.len() == 0x10000,
            out@ == decode1_bytes(b@, t@).take(k as int),
        decreases b@.len() - k,
    {
        let x = b[k];
        out.push(tlookup_exec(t, x as usize, x as char));
        k = k + 1;
        assert(out@ =~= decode1_bytes(b@, t@).take(k as int));
    }
    assert(decode1_bytes(b@, t@).take(k as int) =~= decode1_bytes(b@, t@));
    out
}

fn decode2_bytes_exec(b: &[u8], t: &Vec<Option<char>>) -> (out: Vec<char>)
    requires
        t@.len() == 0x10000,
    ensures
        out@ == decode2_bytes(b@, t@),
{
    let mut out: Vec<char> = Vec::new();
    let mut k: usize = 0;
    assert(b@.subrange(0, b@.len() as int) =~= b@);
    while k < b.len()
        invariant
            k <= b@.len(),
            t@.len() == 0x10000,
            decode2_bytes(b@, t@) == out@ + decode2_bytes(b@.subrange(k as int, b@.len() as int), t@),
        decreases b@.len() - k,
    {
        let ghost rest = b@.subrange(k as int, b@.len() as int);
        let ghost before = out@;
        if k + 1 < b.len() {
            let x = b[k];
            let y = b[k + 1];
            let code: u16 = (x as u16) << 8u16 | (y as u16);
            assert(code as int == code2b(rest[0], rest[1]));
            match t[code as usize] {
                Some(ch) => {
                    out.push(ch);
                },
                None => {
                    let c1 = tlookup_exec(t, x as usize, x as char);
                    let c2 = tlookup_exec(t, y as usize, y as char);
                    out.push(c1);
                    out.push(c2);
                },
            }
            assert(rest.subrange(2, rest.len() as int) =~= b@.subrange(k + 2, b@.len() as int));
            k = k + 2;
        } else {
            let x = b[k];
            out.push(tlookup_exec(t, x as usize, x as char));
            assert(rest.len() == 1);
            k = k + 1;
        }
        assert(out@ + decode2_bytes(b@.subrange(k as int, b@.len() as int), t@) =~= before
            + decode2_bytes(rest, t@));
    }
    assert(decode2_bytes(b@.subrange(k as int, b@.len() as int), t@) == Seq::<char>::empty());
    assert(out@ + Seq::<char>::empty() =~= out@);
    out
}


// ------------------------------------------------------------------
// Fonts in a content stream
// ------------------------------------------------------------------

/// What a content stream is read against: the file, its streams, what is
/// known of its fonts, and the object number of the stream itself.
pub struct Env {
    pub raw: Seq<u8>,
    pub streams: Seq<StreamV>,
    pub info: FontsV,
    pub sobj: Option<int>,
}

/// The character map that applies to text in font object `cur`.
pub open spec fn active_cmap(env: Env, cur: Option<int>) -> Option<Table> {
    if env.info.per_page {
        match cur {
            Some(o) => per_font(env.raw, env.streams, env.info.fonts, o),
            None => None,
        }
    } else if env.info.has_fallback {
        Some(env.info.fallback)
    } else {
        None
    }
}

pub open spec fn cur_twobyte(env: Env, cur: Option<int>) -> bool {
    match cur {
        Some(o) => match per_font(env.raw, env.streams, env.info.fonts, o) {
            Some(t) => twobyte(t),
            None => false,
        },
        None => false,
    }
}

/// The text of a parenthesized string in font `cur`.
pub open spec fn paren_text(env: Env, cur: Option<int>, rc: Seq<char>) -> Seq<char> {
    match active_cmap(env, cur) {
        None => rc,
        Some(t) => if cur_twobyte(env, cur) {
            decode2_chars(rc, t)
        } else {
            decode1_chars(rc, t)
        },
    }
}

/// The text of a hex string in font `cur`.
pub open spec fn hex_text(env: Env, cur: Option<int>, b: Seq<u8>) -> Seq<char> {
    match active_cmap(env, cur) {
        None => utf8_lossy(b),
        Some(t) => if cur_twobyte(env, cur) {
            decode2_bytes(b, t)
        } else {
            decode1_bytes(b, t)
        },
    }
}

/// Among the pages from `k` on, the font that `name` stands for on the
/// page whose content stream number is nearest to `my`; the first such
/// page wins a tie, and a distance of `u32::MAX` never wins.
pub open spec fn best_run(ep: Seq<PageV>, k: int, name: Seq<char>, my: int, best: Option<int>, bd: int) -> Option<int>
    decreases ep.len() - k,
{
    if k < 0 || k >= ep.len() {
        best
    } else {
        match fd_get(ep[k].1, name) {
            Some(f) => {
                let d = abs(ep[k].0 - my);
                if d < bd {
                    best_run(ep, k + 1, name, my, Some(f), d)
                } else {
                    best_run(ep, k + 1, name, my, best, bd)
                }
            },
            None => best_run(ep, k + 1, name, my, best, bd),
        }
    }
}

/// The font object that `/name` stands for in this stream: on its own
/// page, else on the nearest page that names it.
pub open spec fn resolve_font(env: Env, name: Seq<char>) -> Option<int> {
    let direct = match env.sobj {
        Some(n) => match page_lookup(env.info.pages, n) {
            Some(fd) => fd_get(fd, name),
            None => None,
        },
        None => None,
    };
    if direct is Some {
        direct
    } else {
        best_run(
            env.info.pages,
            0,
            name,
            match env.sobj {
                Some(n) => n,
                None => 0,
            },
            None,
            0xFFFF_FFFF,
        )
    }
}

fn fd_get_exec(fd: &Vec<(Vec<char>, u32)>, name: &[char]) -> (r: Option<u32>)
    ensures
        opt_int(r) == fd_get(fd_view(fd@), name@),
{
    let ghost fv = fd_view(fd@);
    let mut k: usize = fd.len();
    assert(fv.take(k as int) =~= fv);
    while k > 0
        invariant
            k <= fd@.len(),
            fv == fd_view(fd@),
            fd_get(fv, name@) == fd_get(fv.take(k as int), name@),
        decreases k,
    {
        let ghost tk = fv.take(k as int);
        assert(tk.last() == fv[k - 1]);
        assert(tk.drop_last() =~= fv.take(k - 1));
        if chars_eq(&fd[k - 1].0, name) {
            return Some(fd[k - 1].1);
        }
        k = k - 1;
    }
    None
}

fn page_lookup_exec(pages: &Vec<(u32, Vec<(Vec<char>, u32)>)>, n: u32) -> (r: Option<usize>)
    ensures
        match r {
            Some(i) => i < pages@.len() && page_lookup(pages_view(pages@), n as int) == Some(
                fd_view(pages@[i as int].1@),
            ),
            None => page_lookup(pages_view(pages@), n as int) is None,
        },
{
    let ghost pv = pages_view(pages@);
    let mut k: usize = 0;
    assert(pv.subrange(0, pv.len() as int) =~= pv);
    while k < pages.len()
        invariant
            k <= pages@.len(),
            pv == pages_view(pages@),
            page_lookup(pv, n as int) == page_lookup(pv.subrange(k as int, pv.len() as int), n as int),
        decreases pages@.len() - k,
    {
        let ghost rest = pv.subrange(k as int, pv.len() as int);
        assert(rest[0] == pv[k as int]);
        assert(rest.drop_first() =~= pv.subrange(k + 1, pv.len() as int));
        if pages[k].0 == n {
            return Some(k);
        }
        k = k + 1;
    }
    None
}

fn best_exec(pages: &Vec<(u32, Vec<(Vec<char>, u32)>)>, name: &[char], my: u32) -> (r: Option<u32>)
    ensures
        opt_int(r) == best_run(pages_view(pages@), 0, name@, my as int, None, 0xFFFF_FFFF),
{
    let ghost pv = pages_view(pages@);
    let mut best: Option<u32> = None;
    let mut bd: u32 = 0xFFFF_FFFF;
    let mut k: usize = 0;
    while k < pages.len()
        invariant
            k <= pages@.len(),
            pv == pages_view(pages@),
            best_run(pv, 0, name@, my as int, None, 0xFFFF_FFFF) == best_run(
                pv,
                k as int,
                name@,
                my as int,
                opt_int(best),
                bd as int,
            ),
        decreases pages@.len() - k,
    {
        assert(pv[k as int] == (pages@[k as int].0 as int, fd_view(pages@[k as int].1@)));
        match fd_get_exec(&pages[k].1, name) {
            Some(f) => {
                let other = pages[k].0;
                let d: u32 = if other >= my {
                    other - my
                } else {
                    my - other
                };
                if d < bd {
                    best = Some(f);
                    bd = d;
                }
            },
            None => {},
        }
        k = k + 1;
    }
    best
}

pub open spec fn env_of(raw: Seq<u8>, sv: Seq<StreamV>, sobj: Option<int>) -> Env {
    Env { raw, streams: sv, info: fonts_info(raw, sv), sobj }
}

fn resolve_font_exec(ctx: &FontCtx, Ghost(raw): Ghost<Seq<u8>>, Ghost(sv): Ghost<Seq<StreamV>>, sobj: Option<u32>, name: &[char]) -> (r: Option<u32>)
    requires
        ctx_ok(*ctx, raw, sv),
    ensures
        opt_int(r) == resolve_font(env_of(raw, sv, opt_int(sobj)), name@),
{
    let direct = match sobj {
        Some(n) => match page_lookup_exec(&ctx.pages, n) {
            Some(i) => fd_get_exec(&ctx.pages[i].1, name),
            None => None,
        },
        None => None,
    };
    if direct.is_some() {
        direct
    } else {
        let my: u32 = match sobj {
            Some(n) => n,
            None => 0,
        };
        best_exec(&ctx.pages, name, my)
    }
}

/// The entry of the font map list for font object `o`.
fn font_map<'a>(ctx: &'a FontCtx, Ghost(raw): Ghost<Seq<u8>>, Ghost(sv): Ghost<Seq<StreamV>>, o: u32) -> (r: Option<&'a (u32, Vec<Option<char>>, bool)>)
    requires
        ctx_ok(*ctx, raw, sv),
    ensures
        match r {
            Some(e) => per_font(raw, sv, fonts_info(raw, sv).fonts, o as int) == Some(e.1@) && e.2
                == twobyte(e.1@) && e.1@.len() == 0x10000,
            None => per_font(raw, sv, fonts_info(raw, sv).fonts, o as int) is None,
        },
{
    let ghost fl = fonts_info(raw, sv).fonts;
    let mut k: usize = 0;
    while k < ctx.cmaps.len()
        invariant
            k <= ctx.cmaps@.len(),
            ctx_ok(*ctx, raw, sv),
            fl == fonts_info(raw, sv).fonts,
            forall|e: int| 0 <= e < k ==> ctx.cmaps@[e].0 != o,
        decreases ctx.cmaps@.len() - k,
    {
        if ctx.cmaps[k].0 == o {
            proof {
                let e = ctx.cmaps@[k as int];
                assert(fl.contains(e.0 as int));
                assert(crate::pdf_fonts::font_cmap(raw, sv, e.0 as int) == Some(e.1@));
            }
            return Some(&ctx.cmaps[k]);
        }
        k = k + 1;
    }
    proof {
        if fl.contains(o as int) {
            let m = choose|m: int| 0 <= m < fl.len() && fl[m] == o as int;
            if crate::pdf_fonts::font_cmap(raw, sv, fl[m]) is Some {
                let e = choose|e: int| 0 <= e < ctx.cmaps@.len() && ctx.cmaps@[e].0 as int == fl[m];
                assert(ctx.cmaps@[e].0 == o);
            }
        }
    }
    None
}


// ------------------------------------------------------------------
// Reading a content stream
// ------------------------------------------------------------------

/// The reader's state: where it is, whether inside `BT`..`ET`, the pieces
/// of the current line, the current font object, the last `Tm` height,
/// the saved fonts of `q`, and the lines so far.
pub struct TState {
    pub i: int,
    pub in_bt: bool,
    pub line: Seq<Seq<char>>,
    pub cur: Option<int>,
    pub last_y: Option<(int, nat)>,
    pub stack: Seq<Option<int>>,
    pub out: Seq<Seq<char>>,
}

pub open spec fn init_state(out: Seq<Seq<char>>) -> TState {
    TState { i: 0, in_bt: false, line: seq![], cur: None, last_y: None, stack: seq![], out }
}

/// Ends the current line, if it has anything.
pub open spec fn flush(st: TState) -> TState {
    if st.line.len() > 0 {
        TState { out: st.out.push(join(st.line, seq![])), line: seq![], ..st }
    } else {
        st
    }
}

/// Adds a column gap to a line that has anything.
pub open spec fn gap(st: TState) -> TState {
    if st.line.len() > 0 {
        TState { line: st.line.push(seq![' ']), ..st }
    } else {
        st
    }
}

pub open spec fn ws_before(c: Seq<char>, i: int) -> bool {
    i == 0 || is_ws(c[i - 1])
}

pub open spec fn ws_after(c: Seq<char>, k: int) -> bool {
    k >= c.len() || is_ws(c[k])
}

/// The two-letter operator `ab` stands at `i` as a word of its own.
pub open spec fn op2(c: Seq<char>, i: int, a: char, b: char) -> bool {
    i + 1 < c.len() && c[i] == a && c[i + 1] == b && ws_before(c, i) && ws_after(c, i + 2)
}

/// `tx ty Td`: a drop of more than one unit ends the line; a move of less
/// than half a unit is a column gap.
pub open spec fn td_effect(c: Seq<char>, st: TState) -> TState {
    let st2 = match operand_before(c, st.i) {
        Some(tok) => match dec_parse(tok) {
            Some(v) => if below_minus_one(v) {
                flush(st)
            } else if under_half(v) {
                gap(st)
            } else {
                st
            },
            None => st,
        },
        None => st,
    };
    TState { i: st.i + 2, ..st2 }
}

/// `a b c d e f Tm`: a height more than one unit from the last one ends the
/// line, else it is a column gap.
pub open spec fn tm_effect(c: Seq<char>, st: TState) -> TState {
    let st2 = match operand_before(c, st.i) {
        Some(tok) => match dec_parse(tok) {
            Some(y) => {
                let s3 = match st.last_y {
                    Some(p) => if moved_row(y, p) {
                        flush(st)
                    } else {
                        gap(st)
                    },
                    None => st,
                };
                TState { last_y: Some(y), ..s3 }
            },
            None => st,
        },
        None => st,
    };
    TState { i: st.i + 2, ..st2 }
}

pub open spec fn name_end(c: Seq<char>, k: int) -> int
    decreases c.len() - k,
{
    if 0 <= k < c.len() && !is_ws(c[k]) {
        name_end(c, k + 1)
    } else {
        k
    }
}

pub open spec fn find_t(c: Seq<char>, k: int) -> int
    decreases c.len() - k,
{
    if 0 <= k < c.len() && c[k] != 'T' {
        find_t(c, k + 1)
    } else {
        k
    }
}

/// Past the `Tf` that follows `k`.
pub open spec fn skip_tf(c: Seq<char>, k: int) -> int {
    let t = find_t(c, k);
    if c.len() - t > 1 && c[t] == 'T' && c[t + 1] == 'f' {
        t + 2
    } else {
        t
    }
}

/// The font name at the `/` at `i` and where it ends, where `size Tf`
/// follows it within 30 characters.
pub open spec fn tf_name(c: Seq<char>, i: int) -> Option<(Seq<char>, int)> {
    let j = name_end(c, i + 1);
    let rem = c.subrange(j, if j + 30 < c.len() { j + 30 } else { c.len() as int });
    let toks = split_ws(rem);
    if toks.len() >= 2 && toks[1] == "Tf"@ {
        Some((c.subrange(i + 1, j), j))
    } else {
        None
    }
}

/// A parenthesized string at `i`, decoded and added to the line.
pub open spec fn paren_effect(env: Env, c: Seq<char>, st: TState) -> TState {
    let ps = paren_string(c, st.i, c.len() as int);
    let text = paren_text(env, st.cur, ps.0);
    TState {
        i: ps.1,
        line: if text.len() > 0 {
            st.line.push(text)
        } else {
            st.line
        },
        ..st
    }
}

/// A hex string at `i`, decoded and added to the line unless blank.
pub open spec fn hex_effect(env: Env, c: Seq<char>, st: TState) -> TState {
    let hs = hex_string(c, st.i, c.len() as int);
    let d = hex_text(env, st.cur, hs.0);
    TState {
        i: hs.1,
        line: if trim(d).len() > 0 {
            st.line.push(d)
        } else {
            st.line
        },
        ..st
    }
}

/// One step of reading the content stream `c` at `st.i`.
pub open spec fn step(env: Env, c: Seq<char>, st: TState) -> TState {
    let i = st.i;
    if c[i] == 'q' && ws_before(c, i) && ws_after(c, i + 1) {
        TState { i: i + 1, stack: st.stack.push(st.cur), ..st }
    } else if c[i] == 'Q' && ws_before(c, i) && ws_after(c, i + 1) {
        if st.stack.len() > 0 {
            TState { i: i + 1, cur: st.stack.last(), stack: st.stack.drop_last(), ..st }
        } else {
            TState { i: i + 1, ..st }
        }
    } else if !st.in_bt && op2(c, i, 'B', 'T') {
        TState { i: i + 2, in_bt: true, ..st }
    } else if st.in_bt && op2(c, i, 'E', 'T') {
        TState { i: i + 2, in_bt: false, ..flush(st) }
    } else if st.in_bt && op2(c, i, 'T', '*') {
        TState { i: i + 2, ..flush(st) }
    } else if st.in_bt && (op2(c, i, 'T', 'd') || op2(c, i, 'T', 'D')) {
        td_effect(c, st)
    } else if st.in_bt && op2(c, i, 'T', 'm') {
        tm_effect(c, st)
    } else if st.in_bt && c[i] == '\'' && ws_before(c, i) && (i + 1 >= c.len() || is_ws(c[i + 1])
        || c[i + 1] == '(') {
        TState { i: i + 1, ..flush(st) }
    } else if st.in_bt && c[i] == '/' && tf_name(c, i) is Some {
        let t = tf_name(c, i)->Some_0;
        TState { i: skip_tf(c, t.1), cur: resolve_font(env, t.0), ..st }
    } else if st.in_bt && c[i] == '(' {
        paren_effect(env, c, st)
    } else if st.in_bt && c[i] == '<' && i + 1 < c.len() && c[i + 1] != '<' {
        hex_effect(env, c, st)
    } else {
        TState { i: i + 1, ..st }
    }
}

proof fn lemma_paren_loop_ge(c: Seq<char>, len: int, i: int, depth: int, acc: Seq<char>)
    ensures
        paren_loop(c, len, i, depth, acc).1 >= i,
        i <= len ==> paren_loop(c, len, i, depth, acc).1 <= len,
    decreases len - i,
{
    if i < len && depth > 0 {
        let opens = c[i] == '(';
        let closes = c[i] == ')';
        let d2 = if opens {
            depth + 1
        } else if closes {
            depth - 1
        } else {
            depth
        };
        if closes && d2 == 0 {
        } else if c[i] == '\\' && i + 1 < len {
            lemma_paren_loop_ge(c, len, i + 2, d2, acc.push(unescape(c[i + 1])));
        } else {
            lemma_paren_loop_ge(c, len, i + 1, d2, acc.push(c[i]));
        }
    }
}

proof fn lemma_hex_digits_ge(c: Seq<char>, len: int, k: int, acc: Seq<char>)
    ensures
        hex_digits(c, len, k, acc).1 >= k,
        k <= len ==> hex_digits(c, len, k, acc).1 <= len,
    decreases len - k,
{
    if k < len && c[k] != '>' {
        lemma_hex_digits_ge(c, len, k + 1, if is_hex(c[k]) { acc.push(c[k]) } else { acc });
    }
}

proof fn lemma_name_end_ge(c: Seq<char>, k: int)
    ensures
        name_end(c, k) >= k,
        0 <= k <= c.len() ==> name_end(c, k) <= c.len(),
    decreases c.len() - k,
{
    if 0 <= k < c.len() && !is_ws(c[k]) {
        lemma_name_end_ge(c, k + 1);
    }
}

proof fn lemma_find_t_ge(c: Seq<char>, k: int)
    ensures
        find_t(c, k) >= k,
        k <= c.len() ==> find_t(c, k) <= c.len(),
    decreases c.len() - k,
{
    if 0 <= k < c.len() && c[k] != 'T' {
        lemma_find_t_ge(c, k + 1);
    }
}

/// Each step over the content moves forward, and not past its end.
pub proof fn lemma_step_advances(env: Env, c: Seq<char>, st: TState)
    requires
        0 <= st.i < c.len(),
    ensures
        st.i < step(env, c, st).i <= c.len(),
{
    lemma_paren_loop_ge(c, c.len() as int, st.i + 1, 1, seq![]);
    lemma_hex_digits_ge(c, c.len() as int, st.i + 1, seq![]);
    lemma_name_end_ge(c, st.i + 1);
    lemma_find_t_ge(c, name_end(c, st.i + 1));
}

/// Reading the content stream `c` from `st` to its end.
pub open spec fn run_stream(env: Env, c: Seq<char>, st: TState) -> TState
    decreases c.len() - st.i,
{
    if st.i < 0 || st.i >= c.len() {
        flush(st)
    } else {
        proof {
            lemma_step_advances(env, c, st);
        }
        run_stream(env, c, step(env, c, st))
    }
}

/// The text lines of the content streams from `k` on, after `out`; streams
/// that are character maps, or have no `BT`, are skipped.
pub open spec fn stream_texts(raw: Seq<u8>, sv: Seq<StreamV>, k: int, out: Seq<Seq<char>>) -> Seq<Seq<char>>
    decreases sv.len() - k,
{
    if k < 0 || k >= sv.len() {
        out
    } else {
        let c = sv[k].0;
        if contains(c, "beginbfchar"@) || contains(c, "begincmap"@) || !contains(c, "BT"@) {
            stream_texts(raw, sv, k + 1, out)
        } else {
            stream_texts(raw, sv, k + 1, run_stream(env_of(raw, sv, sv[k].1), c, init_state(out)).out)
        }
    }
}


/// The state with its finished lines replaced by `o`.
pub open spec fn with_out(st: TState, o: Seq<Seq<char>>) -> TState {
    TState { out: o, ..st }
}

proof fn lemma_flush_out(st: TState)
    ensures
        flush(st) == with_out(flush(with_out(st, seq![])), st.out + flush(with_out(st, seq![])).out),
{
    if st.line.len() > 0 {
        let x = join(st.line, seq![]);
        assert(st.out.push(x) =~= st.out + seq![].push(x));
    } else {
        assert(st.out + Seq::<Seq<char>>::empty() =~= st.out);
    }
}

proof fn lemma_step_out(env: Env, c: Seq<char>, st: TState)
    requires
        0 <= st.i < c.len(),
    ensures
        step(env, c, st) == with_out(step(env, c, with_out(st, seq![])), st.out + step(env, c, with_out(st, seq![])).out),
{
    let st0 = with_out(st, seq![]);
    lemma_flush_out(st);
    assert(st.out + Seq::<Seq<char>>::empty() =~= st.out);
}


proof fn lemma_run_stream_out(env: Env, c: Seq<char>, st: TState)
    ensures
        run_stream(env, c, st) == with_out(
            run_stream(env, c, with_out(st, seq![])),
            st.out + run_stream(env, c, with_out(st, seq![])).out,
        ),
    decreases c.len() - st.i,
{
    let st0 = with_out(st, seq![]);
    if st.i < 0 || st.i >= c.len() {
        lemma_flush_out(st);
    } else {
        lemma_step_out(env, c, st);
        lemma_step_advances(env, c, st);
        lemma_step_advances(env, c, st0);
        let t = step(env, c, st0);
        let s1 = step(env, c, st);
        assert(s1 == with_out(t, st.out + t.out));
        lemma_run_stream_out(env, c, s1);
        lemma_run_stream_out(env, c, t);
        assert(with_out(s1, seq![]) == with_out(t, seq![]));
        let r = run_stream(env, c, with_out(t, seq![]));
        assert(run_stream(env, c, st) == run_stream(env, c, s1));
        assert(run_stream(env, c, st0) == run_stream(env, c, t));
        assert((st.out + t.out) + r.out =~= st.out + (t.out + r.out));
    }
}

/// The lines one content stream gives on its own: none for a character map
/// or a stream without `BT`.
pub open spec fn lines_of_stream(raw: Seq<u8>, sv: Seq<StreamV>, k: int) -> Seq<Seq<char>> {
    let c = sv[k].0;
    if contains(c, "beginbfchar"@) || contains(c, "begincmap"@) || !contains(c, "BT"@) {
        seq![]
    } else {
        run_stream(env_of(raw, sv, sv[k].1), c, init_state(seq![])).out
    }
}

/// Every content stream adds its lines, in file order: the lines read from
/// stream `k` on follow whatever was read before, unchanged; and they are
/// the lines of stream `k` itself followed by those of the streams after it.
pub proof fn lemma_stream_texts_in_order(raw: Seq<u8>, sv: Seq<StreamV>, k: int, out: Seq<Seq<char>>)
    requires
        0 <= k,
    ensures
        stream_texts(raw, sv, k, out) == out + stream_texts(raw, sv, k, seq![]),
        k < sv.len() ==> stream_texts(raw, sv, k, seq![]) == lines_of_stream(raw, sv, k) + stream_texts(
            raw,
            sv,
            k + 1,
            seq![],
        ),
    decreases sv.len() - k,
{
    if k >= sv.len() {
        assert(out + Seq::<Seq<char>>::empty() =~= out);
    } else {
        let c = sv[k].0;
        lemma_stream_texts_in_order(raw, sv, k + 1, out);
        if contains(c, "beginbfchar"@) || contains(c, "begincmap"@) || !contains(c, "BT"@) {
            lemma_stream_texts_in_order(raw, sv, k + 1, seq![]);
            assert(Seq::<Seq<char>>::empty() + stream_texts(raw, sv, k + 1, seq![]) =~= stream_texts(raw, sv, k + 1, seq![]));
        } else {
            let env = env_of(raw, sv, sv[k].1);
            lemma_run_stream_out(env, c, init_state(out));
            assert(with_out(init_state(out), seq![]) == init_state(seq![]));
            let r = run_stream(env, c, init_state(seq![])).out;
            assert(run_stream(env, c, init_state(out)).out == out + r);
            lemma_stream_texts_in_order(raw, sv, k + 1, out + r);
            lemma_stream_texts_in_order(raw, sv, k + 1, r);
            lemma_stream_texts_in_order(raw, sv, k + 1, seq![]);
            assert((out + r) + stream_texts(raw, sv, k + 1, seq![]) =~= out + (r + stream_texts(raw, sv, k + 1, seq![])));
        }
    }
}


/// The reader's state in executable form.
pub struct TStateE {
    pub i: usize,
    pub in_bt: bool,
    pub line: Vec<Vec<char>>,
    pub cur: Option<u32>,
    pub last_y: Option<Dec>,
    pub stack: Vec<Option<u32>>,
    pub out: Vec<Vec<char>>,
}

pub open spec fn opt_views(v: Seq<Option<u32>>) -> Seq<Option<int>> {
    v.map_values(|x: Option<u32>| opt_int(x))
}

pub open spec fn tview(s: TStateE) -> TState {
    TState {
        i: s.i as int,
        in_bt: s.in_bt,
        line: views(s.line@),
        cur: opt_int(s.cur),
        last_y: dec_view(s.last_y),
        stack: opt_views(s.stack@),
        out: views(s.out@),
    }
}

pub open spec fn tstate_ok(s: TStateE) -> bool {
    s.last_y matches Some(v) ==> dec_wf(v)
}

fn flush_exec(st: &mut TStateE)
    ensures
        tview(*final(st)) == flush(tview(*old(st))),
        final(st).last_y == old(st).last_y,
{
    if st.line.len() > 0 {
        let empty: Vec<char> = Vec::new();
        let j = join_chars(&st.line, &empty);
        assert(empty@ =~= Seq::<char>::empty());
        let ghost before = views(st.out@);
        let ghost jv = j@;
        st.out.push(j);
        assert(views(st.out@) =~= before.push(jv));
        st.line = Vec::new();
        assert(views(st.line@) =~= Seq::<Seq<char>>::empty());
    }
}

fn gap_exec(st: &mut TStateE)
    ensures
        tview(*final(st)) == gap(tview(*old(st))),
        final(st).last_y == old(st).last_y,
{
    if st.line.len() > 0 {
        let mut sp: Vec<char> = Vec::new();
        sp.push(' ');
        let ghost before = views(st.line@);
        let ghost spv = sp@;
        st.line.push(sp);
        assert(spv =~= seq![' ']);
        assert(views(st.line@) =~= before.push(seq![' ']));
    }
}

fn td_exec(c: &[char], st: &mut TStateE)
    requires
        old(st).i + 2 <= c.len(),
        tstate_ok(*old(st)),
    ensures
        tview(*final(st)) == td_effect(c@, tview(*old(st))),
        tstate_ok(*final(st)),
{
    match operand_before_exec(c, st.i) {
        Some(tok) => match dec_parse_exec(&tok) {
            Some(v) => {
                if below_minus_one_exec(&v) {
                    flush_exec(st);
                } else if under_half_exec(&v) {
                    gap_exec(st);
                }
            },
            None => {},
        },
        None => {},
    }
    st.i = st.i + 2;
}

fn tm_exec(c: &[char], st: &mut TStateE)
    requires
        old(st).i + 2 <= c.len(),
        tstate_ok(*old(st)),
    ensures
        tview(*final(st)) == tm_effect(c@, tview(*old(st))),
        tstate_ok(*final(st)),
{
    match operand_before_exec(c, st.i) {
        Some(tok) => match dec_parse_exec(&tok) {
            Some(y) => {
                let moved: Option<bool> = match &st.last_y {
                    Some(p) => Some(moved_row_exec(&y, p)),
                    None => None,
                };
                match moved {
                    Some(true) => flush_exec(st),
                    Some(false) => gap_exec(st),
                    None => {},
                }
                st.last_y = Some(y);
            },
            None => {},
        },
        None => {},
    }
    st.i = st.i + 2;
}

fn tf_name_exec(c: &[char], i: usize) -> (r: Option<(Vec<char>, usize)>)
    requires
        i < c.len(),
    ensures
        match r {
            Some(x) => tf_name(c@, i as int) == Some((x.0@, x.1 as int)) && i < x.1 <= c@.len(),
            None => tf_name(c@, i as int) is None,
        },
{
    let mut j: usize = i + 1;
    while j < c.len() && !char_is_ws(c[j])
        invariant
            i < j <= c.len(),
            name_end(c@, i + 1) == name_end(c@, j as int),
        decreases c@.len() - j,
    {
        j = j + 1;
    }
    let hi: usize = if c.len() - j > 30 {
        j + 30
    } else {
        c.len()
    };
    let rem = copy_range(c, j, hi);
    let toks = split_whitespace(&rem);
    let ghost tv = views(toks@);
    if toks.len() >= 2 {
        assert(tv[1] == toks@[1]@);
        if is_word(&toks[1], "Tf") {
            return Some((copy_range(c, i + 1, j), j));
        }
    }
    None
}

fn skip_tf_exec(c: &[char], k: usize) -> (r: usize)
    requires
        k <= c@.len(),
    ensures
        r == skip_tf(c@, k as int),
        k <= r <= c@.len(),
{
    let mut t = k;
    while t < c.len() && c[t] != 'T'
        invariant
            k <= t <= c.len(),
            find_t(c@, k as int) == find_t(c@, t as int),
        decreases c@.len() - t,
    {
        t = t + 1;
    }
    if c.len() - t > 1 && c[t] == 'T' && c[t + 1] == 'f' {
        t + 2
    } else {
        t
    }
}

fn twobyte_of(ctx: &FontCtx, Ghost(raw): Ghost<Seq<u8>>, Ghost(sv): Ghost<Seq<StreamV>>, Ghost(sobj): Ghost<Option<int>>, cur: Option<u32>) -> (r: bool)
    requires
        ctx_ok(*ctx, raw, sv),
    ensures
        r == cur_twobyte(env_of(raw, sv, sobj), opt_int(cur)),
{
    match cur {
        Some(o) => match font_map(ctx, Ghost(raw), Ghost(sv), o) {
            Some(e) => e.2,
            None => false,
        },
        None => false,
    }
}

fn paren_text_exec(ctx: &FontCtx, Ghost(raw): Ghost<Seq<u8>>, Ghost(sv): Ghost<Seq<StreamV>>, Ghost(sobj): Ghost<Option<int>>, cur: Option<u32>, rc: &[char]) -> (r: Vec<char>)
    requires
        ctx_ok(*ctx, raw, sv),
    ensures
        r@ == paren_text(env_of(raw, sv, sobj), opt_int(cur), rc@),
{
    let two = twobyte_of(ctx, Ghost(raw), Ghost(sv), Ghost(sobj), cur);
    if ctx.per_page {
        match cur {
            Some(o) => match font_map(ctx, Ghost(raw), Ghost(sv), o) {
                Some(e) => if two {
                    decode2_chars_exec(rc, &e.1)
                } else {
                    decode1_chars_exec(rc, &e.1)
                },
                None => copy_range(rc, 0, rc.len()),
            },
            None => copy_range(rc, 0, rc.len()),
        }
    } else if ctx.has_fallback {
        if two {
            decode2_chars_exec(rc, &ctx.fallback)
        } else {
            decode1_chars_exec(rc, &ctx.fallback)
        }
    } else {
        copy_range(rc, 0, rc.len())
    }
}

fn hex_text_exec(ctx: &FontCtx, Ghost(raw): Ghost<Seq<u8>>, Ghost(sv): Ghost<Seq<StreamV>>, Ghost(sobj): Ghost<Option<int>>, cur: Option<u32>, b: &[u8]) -> (r: Vec<char>)
    requires
        ctx_ok(*ctx, raw, sv),
    ensures
        r@ == hex_text(env_of(raw, sv, sobj), opt_int(cur), b@),
{
    let two = twobyte_of(ctx, Ghost(raw), Ghost(sv), Ghost(sobj), cur);
    if ctx.per_page {
        match cur {
            Some(o) => match font_map(ctx, Ghost(raw), Ghost(sv), o) {
                Some(e) => if two {
                    decode2_bytes_exec(b, &e.1)
                } else {
                    decode1_bytes_exec(b, &e.1)
                },
                None => lossy_chars(b),
            },
            None => lossy_chars(b),
        }
    } else if ctx.has_fallback {
        if two {
            decode2_bytes_exec(b, &ctx.fallback)
        } else {
            decode1_bytes_exec(b, &ctx.fallback)
        }
    } else {
        lossy_chars(b)
    }
}


fn ws_before_exec(c: &[char], i: usize) -> (r: bool)
    requires
        i < c.len(),
    ensures
        r == ws_before(c@, i as int),
{
    i == 0 || char_is_ws(c[i - 1])
}

fn ws_after_exec(c: &[char], k: usize) -> (r: bool)
    ensures
        r == ws_after(c@, k as int),
{
    k >= c.len() || char_is_ws(c[k])
}

fn op2_exec(c: &[char], i: usize, a: char, b: char) -> (r: bool)
    requires
        i < c.len(),
    ensures
        r == op2(c@, i as int, a, b),
        r ==> i + 2 <= c.len(),
{
    c.len() - i > 1 && c[i] == a && c[i + 1] == b && ws_before_exec(c, i) && ws_after_exec(c, i + 2)
}

fn paren_exec(ctx: &FontCtx, Ghost(raw): Ghost<Seq<u8>>, Ghost(sv): Ghost<Seq<StreamV>>, sobj: Option<u32>, c: &[char], st: &mut TStateE)
    requires
        ctx_ok(*ctx, raw, sv),
        old(st).i < c.len(),
        tstate_ok(*old(st)),
    ensures
        tview(*final(st)) == paren_effect(env_of(raw, sv, opt_int(sobj)), c@, tview(*old(st))),
        tstate_ok(*final(st)),
{
    let mut k = st.i;
    proof {
        lemma_no_paren_overrun(c@, c@.len() as int, k + 1, 1);
    }
    let rc = extract_paren_string(c, &mut k, c.len());
    let text = paren_text_exec(ctx, Ghost(raw), Ghost(sv), Ghost(opt_int(sobj)), st.cur, &rc);
    if text.len() > 0 {
        let ghost before = views(st.line@);
        let ghost tv = text@;
        st.line.push(text);
        assert(views(st.line@) =~= before.push(tv));
    }
    st.i = k;
}

fn hex_exec(ctx: &FontCtx, Ghost(raw): Ghost<Seq<u8>>, Ghost(sv): Ghost<Seq<StreamV>>, sobj: Option<u32>, c: &[char], st: &mut TStateE)
    requires
        ctx_ok(*ctx, raw, sv),
        old(st).i < c.len(),
        tstate_ok(*old(st)),
    ensures
        tview(*final(st)) == hex_effect(env_of(raw, sv, opt_int(sobj)), c@, tview(*old(st))),
        tstate_ok(*final(st)),
{
    let mut k = st.i;
    proof {
        lemma_no_hex_overrun(c@, c@.len() as int, k + 1);
    }
    let b = extract_hex_string(c, &mut k, c.len());
    let d = hex_text_exec(ctx, Ghost(raw), Ghost(sv), Ghost(opt_int(sobj)), st.cur, &b);
    let t = trim_chars(&d);
    if t.len() > 0 {
        let ghost before = views(st.line@);
        let ghost dv = d@;
        st.line.push(d);
        assert(views(st.line@) =~= before.push(dv));
    }
    st.i = k;
}

fn tf_exec(ctx: &FontCtx, Ghost(raw): Ghost<Seq<u8>>, Ghost(sv): Ghost<Seq<StreamV>>, sobj: Option<u32>, c: &[char], st: &mut TStateE, name: &[char], j: usize)
    requires
        ctx_ok(*ctx, raw, sv),
        j <= c.len(),
        tstate_ok(*old(st)),
    ensures
        tview(*final(st)) == (TState {
            i: skip_tf(c@, j as int),
            cur: resolve_font(env_of(raw, sv, opt_int(sobj)), name@),
            ..tview(*old(st))
        }),
        tstate_ok(*final(st)),
{
    st.cur = resolve_font_exec(ctx, Ghost(raw), Ghost(sv), sobj, name);
    st.i = skip_tf_exec(c, j);
}

fn step_exec(ctx: &FontCtx, Ghost(raw): Ghost<Seq<u8>>, Ghost(sv): Ghost<Seq<StreamV>>, sobj: Option<u32>, c: &[char], st: &mut TStateE)
    requires
        ctx_ok(*ctx, raw, sv),
        old(st).i < c.len(),
        tstate_ok(*old(st)),
    ensures
        tview(*final(st)) == step(env_of(raw, sv, opt_int(sobj)), c@, tview(*old(st))),
        tstate_ok(*final(st)),
{
    let i = st.i;
    if c[i] == 'q' && ws_before_exec(c, i) && ws_after_exec(c, i + 1) {
        let ghost before = opt_views(st.stack@);
        st.stack.push(st.cur);
        assert(opt_views(st.stack@) =~= before.push(opt_int(st.cur)));
        st.i = i + 1;
    } else if c[i] == 'Q' && ws_before_exec(c, i) && ws_after_exec(c, i + 1) {
        let ghost before = opt_views(st.stack@);
        if st.stack.len() > 0 {
            let v = st.stack.pop().unwrap();
            assert(opt_views(st.stack@) =~= before.drop_last());
            st.cur = v;
        }
        st.i = i + 1;
    } else if !st.in_bt && op2_exec(c, i, 'B', 'T') {
        st.in_bt = true;
        st.i = i + 2;
    } else if st.in_bt && op2_exec(c, i, 'E', 'T') {
        flush_exec(st);
        st.in_bt = false;
        st.i = i + 2;
    } else if st.in_bt && op2_exec(c, i, 'T', '*') {
        flush_exec(st);
        st.i = i + 2;
    } else if st.in_bt && (op2_exec(c, i, 'T', 'd') || op2_exec(c, i, 'T', 'D')) {
        td_exec(c, st);
    } else if st.in_bt && op2_exec(c, i, 'T', 'm') {
        tm_exec(c, st);
    } else if st.in_bt && c[i] == '\'' && ws_before_exec(c, i) && (c.len() - i <= 1 || char_is_ws(
        c[i + 1],
    ) || c[i + 1] == '(') {
        flush_exec(st);
        st.i = i + 1;
    } else {
        let tf = if st.in_bt && c[i] == '/' {
            tf_name_exec(c, i)
        } else {
            None
        };
        match tf {
            Some(t) => {
                tf_exec(ctx, Ghost(raw), Ghost(sv), sobj, c, st, &t.0, t.1);
            },
            None => {
                if st.in_bt && c[i] == '(' {
                    paren_exec(ctx, Ghost(raw), Ghost(sv), sobj, c, st);
                } else if st.in_bt && c[i] == '<' && c.len() - i > 1 && c[i + 1] != '<' {
                    hex_exec(ctx, Ghost(raw), Ghost(sv), sobj, c, st);
                } else {
                    st.i = i + 1;
                }
            },
        }
    }
}


fn run_stream_exec(ctx: &FontCtx, Ghost(raw): Ghost<Seq<u8>>, Ghost(sv): Ghost<Seq<StreamV>>, sobj: Option<u32>, c: &[char], out: Vec<Vec<char>>) -> (r: Vec<Vec<char>>)
    requires
        ctx_ok(*ctx, raw, sv),
    ensures
        views(r@) == run_stream(env_of(raw, sv, opt_int(sobj)), c@, init_state(views(out@))).out,
{
    let ghost env = env_of(raw, sv, opt_int(sobj));
    let ghost out0 = views(out@);
    let mut st = TStateE {
        i: 0,
        in_bt: false,
        line: Vec::new(),
        cur: None,
        last_y: None,
        stack: Vec::new(),
        out,
    };
    assert(tview(st) =~= init_state(out0)) by {
        assert(views(st.line@) =~= Seq::<Seq<char>>::empty());
        assert(opt_views(st.stack@) =~= Seq::<Option<int>>::empty());
    }
    while st.i < c.len()
        invariant
            ctx_ok(*ctx, raw, sv),
            env == env_of(raw, sv, opt_int(sobj)),
            tstate_ok(st),
            st.i <= c@.len(),
            run_stream(env, c@, init_state(out0)) == run_stream(env, c@, tview(st)),
        decreases c@.len() - st.i,
    {
        proof {
            lemma_step_advances(env, c@, tview(st));
        }
        step_exec(ctx, Ghost(raw), Ghost(sv), sobj, c, &mut st);
    }
    flush_exec(&mut st);
    st.out
}

fn stream_texts_exec(ctx: &FontCtx, Ghost(raw): Ghost<Seq<u8>>, streams: &Vec<(Vec<char>, Option<u32>)>) -> (r: Vec<Vec<char>>)
    requires
        ctx_ok(*ctx, raw, stream_views(streams@)),
    ensures
        views(r@) == stream_texts(raw, stream_views(streams@), 0, seq![]),
{
    let ghost sv = stream_views(streams@);
    let p1 = chars_of("beginbfchar");
    let p2 = chars_of("begincmap");
    let p3 = chars_of("BT");
    let mut out: Vec<Vec<char>> = Vec::new();
    assert(views(out@) =~= Seq::<Seq<char>>::empty());
    let mut k: usize = 0;
    while k < streams.len()
        invariant
            k <= streams@.len(),
            sv == stream_views(streams@),
            ctx_ok(*ctx, raw, sv),
            p1@ == "beginbfchar"@,
            p2@ == "begincmap"@,
            p3@ == "BT"@,
            stream_texts(raw, sv, 0, seq![]) == stream_texts(raw, sv, k as int, views(out@)),
        decreases streams@.len() - k,
    {
        assert(sv[k as int] == (streams@[k as int].0@, opt_int(streams@[k as int].1)));
        let c = &streams[k].0;
        if contains_chars(c, &p1) || contains_chars(c, &p2) || !contains_chars(c, &p3) {
        } else {
            out = run_stream_exec(ctx, Ghost(raw), Ghost(sv), streams[k].1, c, out);
        }
        k = k + 1;
    }
    out
}

// ------------------------------------------------------------------
// Printable runs, and the whole file
// ------------------------------------------------------------------

/// A printable run worth keeping: not blank, and not PDF syntax.
pub open spec fn ascii_keep(t: Seq<char>) -> bool {
    &&& t.len() > 0
    &&& !starts_with(t, "<<"@)
    &&& !starts_with(t, "/"@)
    &&& !starts_with(t, "stream"@)
    &&& !starts_with(t, "endstream"@)
    &&& !starts_with(t, "obj"@)
    &&& !starts_with(t, "endobj"@)
    &&& !starts_with(t, "xref"@)
    &&& !starts_with(t, "trailer"@)
}

/// The runs of more than 8 printable ASCII bytes from byte `k` on, each
/// trimmed, that a non-printable byte ends.
pub open spec fn ascii_run(data: Seq<u8>, k: int, cur: Seq<char>, out: Seq<Seq<char>>) -> Seq<Seq<char>>
    decreases data.len() - k,
{
    if k < 0 || k >= data.len() {
        out
    } else {
        let b = data[k];
        if 32 <= b < 127 {
            ascii_run(data, k + 1, cur.push(b as char), out)
        } else {
            let t = trim(cur);
            ascii_run(
                data,
                k + 1,
                seq![],
                if cur.len() > 8 && ascii_keep(t) {
                    out.push(t)
                } else {
                    out
                },
            )
        }
    }
}

fn ascii_keep_exec(t: &[char]) -> (r: bool)
    ensures
        r == ascii_keep(t@),
{
    let a = chars_of("<<");
    let b = chars_of("/");
    let c = chars_of("stream");
    let d = chars_of("endstream");
    let e = chars_of("obj");
    let f = chars_of("endobj");
    let g = chars_of("xref");
    let h = chars_of("trailer");
    t.len() > 0 && !starts_with_chars(t, &a) && !starts_with_chars(t, &b) && !starts_with_chars(t, &c)
        && !starts_with_chars(t, &d) && !starts_with_chars(t, &e) && !starts_with_chars(t, &f)
        && !starts_with_chars(t, &g) && !starts_with_chars(t, &h)
}

fn ascii_runs(data: &[u8]) -> (r: Vec<Vec<char>>)
    ensures
        views(r@) == ascii_run(data@, 0, seq![], seq![]),
{
    let mut out: Vec<Vec<char>> = Vec::new();
    let mut cur: Vec<char> = Vec::new();
    assert(views(out@) =~= Seq::<Seq<char>>::empty());
    assert(cur@ =~= Seq::<char>::empty());
    let mut k: usize = 0;
    while k < data.len()
        invariant
            k <= data@.len(),
            ascii_run(data@, 0, seq![], seq![]) == ascii_run(data@, k as int, cur@, views(out@)),
        decreases data@.len() - k,
    {
        let b = data[k];
        if 32 <= b && b < 127 {
            cur.push(b as char);
        } else {
            let t = trim_chars(&cur);
            if cur.len() > 8 && ascii_keep_exec(&t) {
                let ghost before = views(out@);
                let ghost tv = t@;
                out.push(t);
                assert(views(out@) =~= before.push(tv));
            }
            cur = Vec::new();
            assert(cur@ =~= Seq::<char>::empty());
        }
        k = k + 1;
    }
    out
}

/// The text of a PDF file: the lines of its content streams joined with
/// newlines, or else its printable runs; `None` where there is neither.
pub open spec fn pdf_text(data: Seq<u8>) -> Option<Seq<char>> {
    let sv = pdf_streams(data).0;
    let texts = stream_texts(data, sv, 0, seq![]);
    let all = if texts.len() == 0 {
        ascii_run(data, 0, seq![], seq![])
    } else {
        texts
    };
    if all.len() == 0 {
        None
    } else {
        Some(join(all, "\n"@))
    }
}

/// Reading the file panics: an object number follows whitespace of more
/// than one byte, or a `bfrange` of a character map that is read runs past
/// `u32::MAX`.
pub open spec fn pdf_panics(data: Seq<u8>) -> bool {
    pdf_streams(data).1 || fonts_info(data, pdf_streams(data).0).panics
}

/// A file whose reading would panic.
#[derive(Debug, Clone, Copy, PartialEq, Eq, Structural)]
pub struct UnreadablePdf;

/// The text of a PDF file, or `Err` where reading it would panic.
pub fn pdf_text_checked(data: &[u8]) -> (r: Result<Option<String>, UnreadablePdf>)
    ensures
        r is Err <==> pdf_panics(data@),
        r matches Ok(t) ==> opt_str(t) == pdf_text(data@),
{
    let (streams, p1) = index_streams(data);
    let (ctx, p2) = build_fonts(data, &streams);
    if p1 || p2 {
        return Err(UnreadablePdf);
    }
    let texts = stream_texts_exec(&ctx, Ghost(data@), &streams);
    let all = if texts.len() == 0 {
        ascii_runs(data)
    } else {
        texts
    };
    if all.len() == 0 {
        Ok(None)
    } else {
        let nl = chars_of("\n");
        let j = join_chars(&all, &nl);
        Ok(Some(string_of(&j)))
    }
}

/// Extracts the text of a PDF file: the text shown between `BT` and `ET`
/// in its content streams, decoded through the fonts' ToUnicode maps, one
/// line per row; or else its printable runs.  `file_name` only names the
/// file: the text is a function of the bytes alone, so two calls on the
/// same bytes under different names give the same text.
pub fn extract_pdf_text(data: &[u8], file_name: &str) -> (r: Option<String>)
    requires
        !pdf_panics(data@),
    ensures
        opt_str(r) == pdf_text(data@),
{
    match pdf_text_checked(data) {
        Ok(t) => t,
        Err(_) => None,
    }
}

/// Extracts the text of a PDF file, as `extract_pdf_text` does: the same
/// text for the same bytes, whatever the name.
pub fn extract_pdf_text_pub(data: &[u8], file_name: &str) -> (r: Option<String>)
    requires
        !pdf_panics(data@),
    ensures
        opt_str(r) == pdf_text(data@),
{
    extract_pdf_text(data, file_name)
}

} // verus!
