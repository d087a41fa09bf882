//! `/ToUnicode` character maps of PDF fonts: their hex tokens, their
//! `bfchar` and `bfrange` sections, and the table they build.

use vstd::prelude::*;
use std::collections::HashMap;
use crate::text::{
    all_digits, char_is_hex, char_is_ws, chars_of, contains, contains_chars, copy_range, ends_with,
    ends_with_chars, is_hex, is_scalar, is_ws, split_char, split_on, string_of, trim, trim_chars,
    views,
};

verus! {

// ------------------------------------------------------------------
// Hex tokens
// ------------------------------------------------------------------

/// The hex tokens of a CMap line, built left to right: the tokens so far,
/// the digits of the token still open, and whether one is open.
pub open spec fn tok_state(line: Seq<char>) -> (Seq<Seq<char>>, Seq<char>, bool)
    decreases line.len(),
{
    if line.len() == 0 {
        (Seq::empty(), Seq::empty(), false)
    } else {
        let st = tok_state(line.drop_last());
        let ch = line.last();
        if ch == '<' {
            (st.0, Seq::empty(), true)
        } else if ch == '>' {
            if st.2 && st.1.len() > 0 {
                (st.0.push(seq!['<'] + st.1 + seq!['>']), Seq::empty(), false)
            } else {
                (st.0, Seq::empty(), false)
            }
        } else if ch == '[' || ch == ']' {
            (st.0.push(seq![ch]), st.1, st.2)
        } else if st.2 {
            (st.0, st.1.push(ch), st.2)
        } else {
            st
        }
    }
}

/// The tokens of a CMap line: `<hex>` groups and the brackets `[` and `]`.
pub open spec fn cmap_tokens(line: Seq<char>) -> Seq<Seq<char>> {
    tok_state(line).0
}

/// The hex tokens and brackets of a CMap line, as characters.
pub fn cmap_hex_tokens(line: &[char]) -> (r: Vec<Vec<char>>)
    ensures
        views(r@) == cmap_tokens(line@),
{
    let mut tokens: Vec<Vec<char>> = Vec::new();
    let mut current: Vec<char> = Vec::new();
    let mut in_bracket = false;
    let mut i: usize = 0;
    while i < line.len()
        invariant
            i <= line@.len(),
            (views(tokens@), current@, in_bracket) == tok_state(line@.take(i as int)),
        decreases line@.len() - i,
    {
        assert(line@.take(i + 1).drop_last() == line@.take(i as int));
        let ch = line[i];
        if ch == '<' {
            in_bracket = true;
            current = Vec::new();
        } else if ch == '>' {
            if in_bracket && current.len() > 0 {
                let mut t: Vec<char> = Vec::new();
                t.push('<');
                let mut k: usize = 0;
                while k < current.len()
                    invariant
                        k <= current@.len(),
                        t@ == seq!['<'] + current@.take(k as int),
                    decreases current@.len() - k,
                {
                    t.push(current[k]);
                    assert(current@.take(k + 1) == current@.take(k as int).push(current@[k as int]));
                    k = k + 1;
                }
                t.push('>');
                assert(current@.take(k as int) == current@);
                assert(t@ =~= seq!['<'] + current@ + seq!['>']);
                let ghost before = views(tokens@);
                let ghost tv = t@;
                tokens.push(t);
                assert(views(tokens@) =~= before.push(tv));
            }
            in_bracket = false;
            current = Vec::new();
        } else if ch == '[' || ch == ']' {
            let mut t: Vec<char> = Vec::new();
            t.push(ch);
            let ghost before = views(tokens@);
            let ghost tv = t@;
            tokens.push(t);
            assert(tv == seq![ch]);
            assert(views(tokens@) =~= before.push(tv));
        } else if in_bracket {
            current.push(ch);
        }
        i = i + 1;
    }
    assert(line@.take(i as int) == line@);
    tokens
}

pub open spec fn hex_val(c: char) -> int {
    if '0' <= c && c <= '9' {
        (c as int) - ('0' as int)
    } else if 'a' <= c && c <= 'f' {
        (c as int) - ('a' as int) + 10
    } else {
        (c as int) - ('A' as int) + 10
    }
}

/// The value of a run of hex digits.
pub open spec fn hex_value(s: Seq<char>) -> int
    decreases s.len(),
{
    if s.len() == 0 {
        0
    } else {
        hex_value(s.drop_last()) * 16 + hex_val(s.last())
    }
}

pub open spec fn all_hex(s: Seq<char>) -> bool {
    forall|i: int| 0 <= i < s.len() ==> is_hex(#[trigger] s[i])
}

/// `u32::from_str_radix(s, 16)`: an optional `+`, then at least one hex
/// digit, and a value that fits in 32 bits.
pub open spec fn parse_hex_u32(s: Seq<char>) -> Option<int> {
    let body = if s.len() > 0 && s[0] == '+' {
        s.subrange(1, s.len() as int)
    } else {
        s
    };
    if body.len() == 0 || !all_hex(body) || hex_value(body) > 0xFFFF_FFFF {
        None
    } else {
        Some(hex_value(body))
    }
}

/// `s` without its leading `c`s.
pub open spec fn strip_leading(s: Seq<char>, c: char) -> Seq<char>
    decreases s.len(),
{
    if s.len() > 0 && s[0] == c {
        strip_leading(s.subrange(1, s.len() as int), c)
    } else {
        s
    }
}

/// `s` without its trailing `c`s.
pub open spec fn strip_trailing(s: Seq<char>, c: char) -> Seq<char>
    decreases s.len(),
{
    if s.len() > 0 && s.last() == c {
        strip_trailing(s.drop_last(), c)
    } else {
        s
    }
}

/// The value of a hex token like `<0053>`.
pub open spec fn cmap_hex(s: Seq<char>) -> Option<int> {
    let inner = strip_trailing(strip_leading(trim(s), '<'), '>');
    if inner.len() == 0 {
        None
    } else {
        parse_hex_u32(inner)
    }
}

fn strip_leading_chars(s: &[char], c: char) -> (r: Vec<char>)
    ensures
        r@ == strip_leading(s@, c),
{
    let mut k: usize = 0;
    assert(s@.subrange(0, s@.len() as int) == s@);
    while k < s.len() && s[k] == c
        invariant
            k <= s@.len(),
            strip_leading(s@, c) == strip_leading(s@.subrange(k as int, s@.len() as int), c),
        decreases s@.len() - k,
    {
        assert(s@.subrange(k as int, s@.len() as int).subrange(1, s@.len() - k) == s@.subrange(
            k + 1,
            s@.len() as int,
        ));
        k = k + 1;
    }
    copy_range(s, k, s.len())
}

fn strip_trailing_chars(s: &[char], c: char) -> (r: Vec<char>)
    ensures
        r@ == strip_trailing(s@, c),
{
    let mut k: usize = s.len();
    assert(s@.take(k as int) == s@);
    while k > 0 && s[k - 1] == c
        invariant
            k <= s@.len(),
            strip_trailing(s@, c) == strip_trailing(s@.take(k as int), c),
        decreases k,
    {
        assert(s@.take(k as int).drop_last() == s@.take(k - 1));
        k = k - 1;
    }
    assert(s@.take(k as int) == s@.subrange(0, k as int));
    copy_range(s, 0, k)
}

proof fn lemma_hex_nonneg(s: Seq<char>)
    requires
        all_hex(s),
    ensures
        hex_value(s) >= 0,
    decreases s.len(),
{
    if s.len() > 0 {
        let t = s.drop_last();
        assert(all_hex(t)) by {
            assert forall|i: int| 0 <= i < t.len() implies is_hex(#[trigger] t[i]) by {
                assert(t[i] == s[i]);
            }
        }
        lemma_hex_nonneg(t);
        assert(is_hex(s[s.len() - 1]));
    }
}

proof fn lemma_hex_value_prefix(s: Seq<char>, k: int)
    requires
        all_hex(s),
        0 <= k <= s.len(),
    ensures
        0 <= hex_value(s.take(k)) <= hex_value(s),
    decreases s.len(),
{
    if k == s.len() {
        assert(s.take(k) == s);
        lemma_hex_nonneg(s);
    } else {
        let t = s.drop_last();
        assert(all_hex(t)) by {
            assert forall|i: int| 0 <= i < t.len() implies is_hex(#[trigger] t[i]) by {
                assert(t[i] == s[i]);
            }
        }
        lemma_hex_value_prefix(t, k);
        assert(t.take(k) == s.take(k));
        lemma_hex_nonneg(t);
        assert(is_hex(s[s.len() - 1]));
    }
}

fn hex_digit_value(c: char) -> (v: u64)
    requires
        is_hex(c),
    ensures
        v as int == hex_val(c),
        v < 16,
{
    if '0' <= c && c <= '9' {
        (c as u32 - '0' as u32) as u64
    } else if 'a' <= c && c <= 'f' {
        (c as u32 - 'a' as u32 + 10) as u64
    } else {
        (c as u32 - 'A' as u32 + 10) as u64
    }
}

#[verifier::spinoff_prover]
fn parse_hex_u32_chars(s: &[char]) -> (r: Option<u32>)
    ensures
        r matches Some(v) ==> parse_hex_u32(s@) == Some(v as int),
        r is None ==> parse_hex_u32(s@) is None,
{
    let n = s.len();
    let start: usize = if n > 0 && s[0] == '+' {
        1
    } else {
        0
    };
    let ghost body = s@.subrange(start as int, n as int);
    assert(body == (if s@.len() > 0 && s@[0] == '+' {
        s@.subrange(1, s@.len() as int)
    } else {
        s@
    }));
    if start == n {
        return None;
    }
    let mut acc: u64 = 0;
    let mut i: usize = start;
    while i < n
        invariant
            start <= i <= n,
            n == s@.len(),
            start < n,
            body == s@.subrange(start as int, n as int),
            body == (if s@.len() > 0 && s@[0] == '+' {
                s@.subrange(1, s@.len() as int)
            } else {
                s@
            }),
            acc == hex_value(body.take(i - start)),
            all_hex(body.take(i - start)),
            acc <= 0xFFFF_FFFF,
        decreases n - i,
    {
        let c = s[i];
        assert(body.take(i + 1 - start).drop_last() == body.take(i - start));
        assert(body.take(i + 1 - start).last() == c);
        if !char_is_hex(c) {
            assert(!all_hex(body)) by {
                assert(body[i - start] == c);
            }
            return None;
        }
        assert(all_hex(body.take(i + 1 - start))) by {
            assert forall|j: int| 0 <= j < i + 1 - start implies is_hex(
                #[trigger] body.take(i + 1 - start)[j],
            ) by {
                if j < i - start {
                    assert(body.take(i + 1 - start)[j] == body.take(i - start)[j]);
                }
            }
        }
        let d = hex_digit_value(c);
        assert(hex_value(body.take(i + 1 - start)) == acc * 16 + d);
        acc = acc * 16 + d;
        i = i + 1;
        if acc > 0xFFFF_FFFF {
            proof {
                if all_hex(body) {
                    lemma_hex_value_prefix(body, i - start);
                }
            }
            return None;
        }
    }
    assert(body.take(i - start) == body);
    Some(acc as u32)
}

/// The value of a hex token like `<0053>` or `<20>`.
pub fn cmap_hex_value(s: &[char]) -> (r: Option<u32>)
    ensures
        r matches Some(v) ==> cmap_hex(s@) == Some(v as int),
        r is None ==> cmap_hex(s@) is None,
{
    let t = trim_chars(s);
    let a = strip_leading_chars(&t, '<');
    let b = strip_trailing_chars(&a, '>');
    if b.len() == 0 {
        return None;
    }
    parse_hex_u32_chars(&b)
}

// ------------------------------------------------------------------
// The table
// ------------------------------------------------------------------

/// A character table indexed by 16-bit codes.
pub type Table = Seq<Option<char>>;

/// The outcome of reading CMap lines into a table: the table, how many
/// entries were written, and whether a `bfrange` ran its target past
/// `u32::MAX` (where the reading overflows).
pub struct CMapState {
    pub table: Table,
    pub added: nat,
    pub overflow: bool,
}

pub open spec fn put(st: CMapState, src: int, dst: int) -> CMapState {
    if 0 <= src <= 0xFFFF && 0 <= dst <= 0xFFFF_FFFF && is_scalar(dst as u32) {
        CMapState { table: st.table.update(src, Some(dst as u32 as char)), added: st.added + 1, ..st }
    } else {
        st
    }
}

/// A `bfchar` line: `<src> <dst>`.
pub open spec fn bfchar_line(l: Seq<char>, st: CMapState) -> CMapState {
    let toks = cmap_tokens(l);
    if toks.len() >= 2 {
        match (cmap_hex(toks[0]), cmap_hex(toks[1])) {
            (Some(src), Some(dst)) => put(st, src, dst),
            _ => st,
        }
    } else {
        st
    }
}

/// The array form `<start> <end> [ <u1> <u2> ... ]`: tokens from index `k`,
/// the `k - 3`-th mapped from `start + k - 3`.
pub open spec fn range_array(toks: Seq<Seq<char>>, k: int, rs: int, re: int, st: CMapState) -> CMapState
    decreases toks.len() - k,
{
    if k < 3 || k >= toks.len() || toks[k] == seq![']'] {
        st
    } else {
        let src = rs + (k - 3);
        if src > 0xFFFF || src > re {
            st
        } else {
            let st2 = match cmap_hex(toks[k]) {
                Some(dst) => put(st, src, dst),
                None => st,
            };
            range_array(toks, k + 1, rs, re, st2)
        }
    }
}

/// The simple form `<start> <end> <ustart>`: the first `k` offsets.
pub open spec fn range_simple(rs: int, us: int, k: int, st: CMapState) -> CMapState
    decreases k,
{
    if k <= 0 {
        st
    } else {
        let prev = range_simple(rs, us, k - 1, st);
        put(prev, rs + (k - 1), us + (k - 1))
    }
}

/// A `bfrange` line.
pub open spec fn bfrange_line(l: Seq<char>, st: CMapState) -> CMapState {
    let toks = cmap_tokens(l);
    if toks.len() >= 3 {
        if toks[2] == seq!['['] {
            match (cmap_hex(toks[0]), cmap_hex(toks[1])) {
                (Some(rs), Some(re)) => range_array(toks, 3, rs, re, st),
                _ => st,
            }
        } else {
            match (cmap_hex(toks[0]), cmap_hex(toks[1]), cmap_hex(toks[2])) {
                (Some(rs), Some(re), Some(us)) => if re >= rs {
                    let st2 = range_simple(rs, us, re - rs + 1, st);
                    if us + (re - rs) > 0xFFFF_FFFF {
                        CMapState { overflow: true, ..st2 }
                    } else {
                        st2
                    }
                } else {
                    st
                },
                _ => st,
            }
        }
    } else {
        st
    }
}

/// Lines `j..` of a `bfchar` section, up to the line with `endbfchar`;
/// returns where that line is.
pub open spec fn bfchar_run(lines: Seq<Seq<char>>, j: int, st: CMapState) -> (int, CMapState)
    decreases lines.len() - j,
{
    if j < 0 || j >= lines.len() || contains(trim(lines[j]), "endbfchar"@) {
        (j, st)
    } else {
        bfchar_run(lines, j + 1, bfchar_line(trim(lines[j]), st))
    }
}

/// Lines `j..` of a `bfrange` section, up to the line with `endbfrange`.
pub open spec fn bfrange_run(lines: Seq<Seq<char>>, j: int, st: CMapState) -> (int, CMapState)
    decreases lines.len() - j,
{
    if j < 0 || j >= lines.len() || contains(trim(lines[j]), "endbfrange"@) {
        (j, st)
    } else {
        bfrange_run(lines, j + 1, bfrange_line(trim(lines[j]), st))
    }
}

/// A `bfchar` block read from line `j` ends at or after `j`, and not past
/// the last line.
pub proof fn lemma_bfchar_run_ge(lines: Seq<Seq<char>>, j: int, st: CMapState)
    requires
        0 <= j,
    ensures
        j <= bfchar_run(lines, j, st).0 <= if j <= lines.len() { lines.len() as int } else { j },
    decreases lines.len() - j,
{
    if j < lines.len() && !contains(trim(lines[j]), "endbfchar"@) {
        lemma_bfchar_run_ge(lines, j + 1, bfchar_line(trim(lines[j]), st));
    }
}

/// A `bfrange` block read from line `j` ends at or after `j`, and not past
/// the last line.
pub proof fn lemma_bfrange_run_ge(lines: Seq<Seq<char>>, j: int, st: CMapState)
    requires
        0 <= j,
    ensures
        j <= bfrange_run(lines, j, st).0 <= if j <= lines.len() { lines.len() as int } else { j },
    decreases lines.len() - j,
{
    if j < lines.len() && !contains(trim(lines[j]), "endbfrange"@) {
        lemma_bfrange_run_ge(lines, j + 1, bfrange_line(trim(lines[j]), st));
    }
}

/// The code and character a `bfchar` line `<src> <dst>` maps: its first two
/// tokens read as hex numbers, a code of at most `0xFFFF` and a Unicode
/// scalar value; none for any other line.
pub open spec fn line_mapping(l: Seq<char>) -> Option<(int, char)> {
    let toks = cmap_tokens(l);
    if toks.len() < 2 {
        None
    } else {
        match (cmap_hex(toks[0]), cmap_hex(toks[1])) {
            (Some(src), Some(dst)) => if 0 <= src <= 0xFFFF && 0 <= dst <= 0xFFFF_FFFF && is_scalar(dst as u32) {
                Some((src, dst as u32 as char))
            } else {
                None
            },
            _ => None,
        }
    }
}

/// The code a line maps (0 where it maps none).
pub open spec fn mapped_src(l: Seq<char>) -> int {
    match line_mapping(l) {
        Some(m) => m.0,
        None => 0,
    }
}

/// The character a line maps its code to (`'\0'` where it maps none).
pub open spec fn mapped_char(l: Seq<char>) -> char {
    match line_mapping(l) {
        Some(m) => m.1,
        None => '\0',
    }
}

/// How many of the lines `j..e` map a code.
pub open spec fn mapping_lines(lines: Seq<Seq<char>>, j: int, e: int) -> nat
    decreases e - j,
{
    if j >= e {
        0
    } else {
        (if line_mapping(trim(lines[j])) is Some {
            1nat
        } else {
            0nat
        }) + mapping_lines(lines, j + 1, e)
    }
}

/// Line `k` maps the code `code`.
pub open spec fn maps_code(lines: Seq<Seq<char>>, k: int, code: int) -> bool {
    line_mapping(trim(lines[k])) matches Some(m) && m.0 == code
}

/// What a `bfchar` section does, line by line, whatever a line's place in
/// it: the section read from line `j` runs up to the first line at or after
/// `j` that holds `endbfchar` (or the end); every line in it that maps a
/// code puts that code's character in the table, where no later line of
/// the section maps the same code, and counts one entry; codes that no line
/// maps keep what the table held.
pub proof fn lemma_bfchar_section(lines: Seq<Seq<char>>, j: int, st: CMapState)
    requires
        0 <= j,
        st.table.len() == 0x10000,
    ensures
        ({
            let (e, st2) = bfchar_run(lines, j, st);
            &&& j <= e
            &&& e <= lines.len() || e == j
            &&& forall|k: int| j <= k < e ==> !contains(trim(#[trigger] lines[k]), "endbfchar"@)
            &&& (e < lines.len() ==> contains(trim(lines[e]), "endbfchar"@))
            &&& st2.added == st.added + mapping_lines(lines, j, e)
            &&& st2.table.len() == 0x10000
            &&& st2.overflow == st.overflow
            &&& forall|k: int|
                j <= k < e && (#[trigger] line_mapping(trim(lines[k]))) is Some && (forall|k2: int|
                    k < k2 < e ==> !maps_code(lines, k2, mapped_src(trim(lines[k])))) ==> st2.table[mapped_src(trim(lines[k]))] == Some(mapped_char(trim(lines[k])))
            &&& forall|code: int|
                0 <= code < 0x10000 && (forall|k: int| j <= k < e ==> !maps_code(lines, k, code)) ==> #[trigger] st2.table[code]
                    == st.table[code]
        }),
    decreases lines.len() - j,
{
    if j < lines.len() && !contains(trim(lines[j]), "endbfchar"@) {
        let l = trim(lines[j]);
        let st1 = bfchar_line(l, st);
        assert(st1 == match line_mapping(l) {
            Some(m) => CMapState { table: st.table.update(m.0, Some(m.1)), added: st.added + 1, ..st },
            None => st,
        });
        lemma_bfchar_section(lines, j + 1, st1);
        let (e, st2) = bfchar_run(lines, j + 1, st1);
        assert(bfchar_run(lines, j, st) == (e, st2));
        assert forall|k: int|
            j <= k < e && (#[trigger] line_mapping(trim(lines[k]))) is Some && (forall|k2: int|
                k < k2 < e ==> !maps_code(lines, k2, mapped_src(trim(lines[k])))) implies st2.table[mapped_src(trim(lines[k]))] == Some(mapped_char(trim(lines[k]))) by {
            if k == j {
                let code = mapped_src(l);
                assert(forall|k3: int| j + 1 <= k3 < e ==> !maps_code(lines, k3, code));
                assert(st2.table[code] == st1.table[code]);
            }
        }
        assert forall|code: int|
            0 <= code < 0x10000 && (forall|k: int| j <= k < e ==> !maps_code(lines, k, code)) implies #[trigger] st2.table[code]
            == st.table[code] by {
            assert(!maps_code(lines, j, code));
            assert(forall|k: int| j + 1 <= k < e ==> !maps_code(lines, k, code));
        }
    }
}

/// A `bfchar` or `bfrange` section is read from its own lines alone: read
/// from two places with the same lines from there on, it gives the same
/// entries and ends the same number of lines further on, whatever lines came
/// before either place.
pub proof fn lemma_sections_read_alone(lines: Seq<Seq<char>>, j: int, lines2: Seq<Seq<char>>, j2: int, st: CMapState)
    requires
        0 <= j <= lines.len(),
        0 <= j2 <= lines2.len(),
        lines.skip(j) == lines2.skip(j2),
    ensures
        bfchar_run(lines, j, st).1 == bfchar_run(lines2, j2, st).1,
        bfchar_run(lines, j, st).0 - j == bfchar_run(lines2, j2, st).0 - j2,
        bfrange_run(lines, j, st).1 == bfrange_run(lines2, j2, st).1,
        bfrange_run(lines, j, st).0 - j == bfrange_run(lines2, j2, st).0 - j2,
    decreases lines.len() - j,
{
    assert(lines.len() - j == lines.skip(j).len());
    assert(lines2.len() - j2 == lines2.skip(j2).len());
    if j < lines.len() {
        assert(lines[j] == lines.skip(j)[0]);
        assert(lines2[j2] == lines2.skip(j2)[0]);
        assert(lines.skip(j + 1) =~= lines.skip(j).skip(1));
        assert(lines2.skip(j2 + 1) =~= lines2.skip(j2).skip(1));
        let l = trim(lines[j]);
        lemma_sections_read_alone(lines, j + 1, lines2, j2 + 1, bfchar_line(l, st));
        lemma_sections_read_alone(lines, j + 1, lines2, j2 + 1, bfrange_line(l, st));
    }
}

/// The CMap lines from `i` on.
pub open spec fn cmap_run(lines: Seq<Seq<char>>, i: int, st: CMapState) -> CMapState
    decreases lines.len() + 1 - i,
{
    if i < 0 || i >= lines.len() {
        st
    } else {
        let line = trim(lines[i]);
        if ends_with(line, "beginbfchar"@) {
            proof {
                lemma_bfchar_run_ge(lines, i + 1, st);
            }
            let r = bfchar_run(lines, i + 1, st);
            cmap_run(lines, r.0 + 1, r.1)
        } else if ends_with(line, "beginbfrange"@) {
            proof {
                lemma_bfrange_run_ge(lines, i + 1, st);
            }
            let r = bfrange_run(lines, i + 1, st);
            cmap_run(lines, r.0 + 1, r.1)
        } else {
            cmap_run(lines, i + 1, st)
        }
    }
}

/// Reading the CMap `content` into a table.
pub open spec fn parse_cmap(content: Seq<char>, st: CMapState) -> CMapState {
    cmap_run(split_char(content, '\n'), 0, st)
}


// ------------------------------------------------------------------
// Reading a CMap into a table
// ------------------------------------------------------------------

pub open spec fn state_of(table: Seq<Option<char>>, added: u128, overflow: bool) -> CMapState {
    CMapState { table, added: added as nat, overflow }
}

fn put_exec(map: &mut Vec<Option<char>>, added: &mut u128, src: u64, dst: u64)
    requires
        old(map)@.len() == 0x10000,
        *old(added) < 0x1_0000_0000_0000_0000_0000_0000,
    ensures
        final(map)@.len() == 0x10000,
        ({
            let s = put(state_of(old(map)@, *old(added), false), src as int, dst as int);
            final(map)@ == s.table && *final(added) as nat == s.added
        }),
        *final(added) <= *old(added) + 1,
        src > 0xFFFF ==> *final(added) == *old(added),
{
    if src <= 0xFFFF && dst <= 0xFFFF_FFFF {
        match char::from_u32(dst as u32) {
            Some(c) => {
                proof {
                    vstd::utf8::char_u32_cast(c, dst as u32);
                }
                map.set(src as usize, Some(c));
                *added = *added + 1;
            },
            None => {},
        }
    }
}

/// Reads one `bfchar` line.
fn bfchar_line_exec(l: &[char], map: &mut Vec<Option<char>>, added: &mut u128)
    requires
        old(map)@.len() == 0x10000,
        *old(added) < 0x100_0000_0000_0000_0000_0000,
    ensures
        final(map)@.len() == 0x10000,
        ({
            let s = bfchar_line(l@, state_of(old(map)@, *old(added), false));
            final(map)@ == s.table && *final(added) as nat == s.added
        }),
        *final(added) <= *old(added) + 1,
{
    let toks = cmap_hex_tokens(l);
    if toks.len() >= 2 {
        let a = cmap_hex_value(&toks[0]);
        let b = cmap_hex_value(&toks[1]);
        match (a, b) {
            (Some(src), Some(dst)) => {
                put_exec(map, added, src as u64, dst as u64);
            },
            _ => {},
        }
    }
}

proof fn lemma_range_simple_stops(rs: int, us: int, k: int, st: CMapState)
    requires
        rs >= 0,
        k >= 0,
        rs + k > 0x10000,
    ensures
        range_simple(rs, us, k, st) == range_simple(rs, us, if rs > 0x10000 { 0 } else { 0x10000 - rs }, st),
    decreases k,
{
    let k0 = if rs > 0x10000 { 0 } else { 0x10000 - rs };
    if k > k0 {
        if k - 1 > k0 || rs + (k - 1) > 0x10000 {
            if rs + (k - 1) > 0x10000 {
                lemma_range_simple_stops(rs, us, k - 1, st);
            }
        }
    }
}

proof fn lemma_range_simple_tail(rs: int, us: int, k: int, st: CMapState)
    requires
        rs >= 0,
        k >= 0,
        rs + k >= 0x10000,
    ensures
        range_simple(rs, us, k, st) == range_simple(rs, us, if rs > 0x10000 { 0 } else { 0x10000 - rs }, st),
    decreases k,
{
    let k0 = if rs > 0x10000 { 0 } else { 0x10000 - rs };
    if k > k0 {
        lemma_range_simple_tail(rs, us, k - 1, st);
        assert(rs + (k - 1) > 0xFFFF);
    }
}

/// Reads one `bfrange` line.
fn bfrange_line_exec(l: &[char], map: &mut Vec<Option<char>>, added: &mut u128, overflow: &mut bool)
    requires
        old(map)@.len() == 0x10000,
        *old(added) < 0x100_0000_0000_0000_0000_0000,
    ensures
        final(map)@.len() == 0x10000,
        ({
            let s = bfrange_line(l@, state_of(old(map)@, *old(added), *old(overflow)));
            final(map)@ == s.table && *final(added) as nat == s.added && *final(overflow) == s.overflow
        }),
        *final(added) <= *old(added) + 0x10001,
{
    let toks = cmap_hex_tokens(l);
    let ghost tv = views(toks@);
    let ghost st0 = state_of(map@, *added, *overflow);
    if toks.len() < 3 {
        return;
    }
    assert(tv[0] == toks@[0]@ && tv[1] == toks@[1]@ && tv[2] == toks@[2]@);
    let open_bracket = toks[2].len() == 1 && toks[2][0] == '[';
    assert(open_bracket == (tv[2] == seq!['['])) by {
        if tv[2] == seq!['['] {
            assert(tv[2].len() == 1 && tv[2][0] == '[');
        }
        if open_bracket {
            assert(tv[2] =~= seq!['[']);
        }
    }
    if open_bracket {
        let a = cmap_hex_value(&toks[0]);
        let b = cmap_hex_value(&toks[1]);
        match (a, b) {
            (Some(rs), Some(re)) => {
                let mut k: usize = 3;
                let ghost added0 = *added;
                while k < toks.len()
                    invariant
                        3 <= k <= toks@.len(),
                        tv == views(toks@),
                        map@.len() == 0x10000,
                        added0 < 0x100_0000_0000_0000_0000_0000,
                        *added <= added0 + (k - 3),
                        k - 3 <= 0x10001,
                        *overflow == st0.overflow,
                        range_array(tv, 3, rs as int, re as int, st0) == range_array(
                            tv,
                            k as int,
                            rs as int,
                            re as int,
                            state_of(map@, *added, *overflow),
                        ),
                    ensures
                        map@.len() == 0x10000,
                        *added <= added0 + 0x10001,
                        *overflow == st0.overflow,
                        range_array(tv, 3, rs as int, re as int, st0) == state_of(map@, *added, *overflow),
                    decreases toks@.len() - k,
                {
                    assert(tv[k as int] == toks@[k as int]@);
                    let t = &toks[k];
                    let close = t.len() == 1 && t[0] == ']';
                    assert(close == (tv[k as int] == seq![']'])) by {
                        if tv[k as int] == seq![']'] {
                            assert(tv[k as int].len() == 1 && tv[k as int][0] == ']');
                        }
                        if close {
                            assert(tv[k as int] =~= seq![']']);
                        }
                    }
                    if close {
                        break;
                    }
                    let src: u64 = rs as u64 + (k as u64 - 3);
                    if src > 0xFFFF || src > re as u64 {
                        break;
                    }
                    let d = cmap_hex_value(t);
                    match d {
                        Some(dst) => {
                            put_exec(map, added, src, dst as u64);
                        },
                        None => {},
                    }
                    k = k + 1;
                }
            },
            _ => {},
        }
    } else {
        let a = cmap_hex_value(&toks[0]);
        let b = cmap_hex_value(&toks[1]);
        let c = cmap_hex_value(&toks[2]);
        match (a, b, c) {
            (Some(rs), Some(re), Some(us)) => {
                if re >= rs {
                    let n: u64 = (re - rs) as u64 + 1;
                    let stop: u64 = if rs > 0x10000 {
                        0
                    } else {
                        0x10000 - rs as u64
                    };
                    let lim: u64 = if n < stop {
                        n
                    } else {
                        stop
                    };
                    let ghost added0 = *added;
                    let mut k: u64 = 0;
                    while k < lim
                        invariant
                            k <= lim <= n,
                            lim <= stop,
                            n == re - rs + 1,
                            stop == (if rs > 0x10000 { 0 } else { 0x10000 - rs }),
                            map@.len() == 0x10000,
                            added0 < 0x100_0000_0000_0000_0000_0000,
                            *added <= added0 + k,
                            state_of(map@, *added, *overflow) == range_simple(
                                rs as int,
                                us as int,
                                k as int,
                                st0,
                            ),
                        decreases lim - k,
                    {
                        put_exec(map, added, rs as u64 + k, us as u64 + k);
                        k = k + 1;
                    }
                    proof {
                        if lim < n {
                            lemma_range_simple_tail(rs as int, us as int, n as int, st0);
                        }
                    }
                    if us as u64 + (re - rs) as u64 > 0xFFFF_FFFF {
                        *overflow = true;
                    }
                }
            },
            _ => {},
        }
    }
}


/// Reads the `bfchar` and `bfrange` sections of the CMap `content` into
/// `map`, a table of the 65536 two-byte codes; returns how many entries were
/// written and whether a `bfrange` ran its targets past `u32::MAX`.
pub fn read_cmap(content: &[char], map: &mut Vec<Option<char>>) -> (r: (u128, bool))
    requires
        old(map)@.len() == 0x10000,
    ensures
        final(map)@.len() == 0x10000,
        ({
            let s = parse_cmap(content@, state_of(old(map)@, 0, false));
            final(map)@ == s.table && r.0 as nat == s.added && r.1 == s.overflow
        }),
{
    let lines = split_on(content, '\n');
    let ghost ls = views(lines@);
    let ghost st0 = state_of(map@, 0, false);
    let bfchar_begin = chars_of("beginbfchar");
    let bfchar_end = chars_of("endbfchar");
    let bfrange_begin = chars_of("beginbfrange");
    let bfrange_end = chars_of("endbfrange");
    let mut added: u128 = 0;
    let mut overflow = false;
    let mut i: usize = 0;
    while i < lines.len()
        invariant
            ls == views(lines@),
            ls == split_char(content@, '\n'),
            i <= lines@.len() + 1,
            map@.len() == 0x10000,
            added <= 0x10001 * i,
            bfchar_begin@ == "beginbfchar"@,
            bfchar_end@ == "endbfchar"@,
            bfrange_begin@ == "beginbfrange"@,
            bfrange_end@ == "endbfrange"@,
            cmap_run(ls, 0, st0) == cmap_run(ls, i as int, state_of(map@, added, overflow)),
        decreases lines@.len() + 1 - i,
    {
        assert(ls[i as int] == lines@[i as int]@);
        let line = trim_chars(&lines[i]);
        let ghost cur = state_of(map@, added, overflow);
        if ends_with_chars(&line, &bfchar_begin) {
            let mut j: usize = i + 1;
            while j < lines.len()
                invariant
                    ls == views(lines@),
                    i < j <= lines@.len(),
                    map@.len() == 0x10000,
                    added <= 0x10001 * j,
                    bfchar_end@ == "endbfchar"@,
                    bfchar_run(ls, i + 1, cur) == bfchar_run(ls, j as int, state_of(map@, added, overflow)),
                ensures
                    i < j <= lines@.len(),
                    map@.len() == 0x10000,
                    added <= 0x10001 * j,
                    bfchar_run(ls, i + 1, cur) == (j as int, state_of(map@, added, overflow)),
                decreases lines@.len() - j,
            {
                assert(ls[j as int] == lines@[j as int]@);
                let l = trim_chars(&lines[j]);
                if contains_chars(&l, &bfchar_end) {
                    break;
                }
                let ghost ov = overflow;
                bfchar_line_exec(&l, map, &mut added);
                assert(ov == overflow);
                j = j + 1;
            }
            proof {
                let x = state_of(map@, added, overflow);
                assert(cmap_run(ls, i as int, cur) == cmap_run(ls, j + 1, x));
                assert(cmap_run(ls, j + 1, x) == x || j < ls.len());
                assert(cmap_run(ls, j as int, x) == x || j < ls.len());
            }
            i = if j < lines.len() {
                j + 1
            } else {
                j
            };
        } else if ends_with_chars(&line, &bfrange_begin) {
            let mut j: usize = i + 1;
            while j < lines.len()
                invariant
                    ls == views(lines@),
                    i < j <= lines@.len(),
                    map@.len() == 0x10000,
                    added <= 0x10001 * j,
                    bfrange_end@ == "endbfrange"@,
                    bfrange_run(ls, i + 1, cur) == bfrange_run(ls, j as int, state_of(map@, added, overflow)),
                ensures
                    i < j <= lines@.len(),
                    map@.len() == 0x10000,
                    added <= 0x10001 * j,
                    bfrange_run(ls, i + 1, cur) == (j as int, state_of(map@, added, overflow)),
                decreases lines@.len() - j,
            {
                assert(ls[j as int] == lines@[j as int]@);
                let l = trim_chars(&lines[j]);
                if contains_chars(&l, &bfrange_end) {
                    break;
                }
                bfrange_line_exec(&l, map, &mut added, &mut overflow);
                j = j + 1;
            }
            proof {
                let x = state_of(map@, added, overflow);
                assert(cmap_run(ls, i as int, cur) == cmap_run(ls, j + 1, x));
                assert(cmap_run(ls, j + 1, x) == x || j < ls.len());
                assert(cmap_run(ls, j as int, x) == x || j < ls.len());
            }
            i = if j < lines.len() {
                j + 1
            } else {
                j
            };
        } else {
            i = i + 1;
        }
    }
    (added, overflow)
}


/// Splits a CMap line into its hex tokens and brackets; handles both
/// `<20> <20> <0052>` and `<0026><0026><0043>`.
pub fn split_cmap_hex_tokens(line: &str) -> (r: Vec<String>)
    ensures
        r@.len() == cmap_tokens(line@).len(),
        forall|k: int| 0 <= k < r@.len() ==> #[trigger] r@[k]@ == cmap_tokens(line@)[k],
{
    let cs = chars_of(line);
    let toks = cmap_hex_tokens(&cs);
    let mut r: Vec<String> = Vec::new();
    let mut k: usize = 0;
    while k < toks.len()
        invariant
            k <= toks@.len(),
            views(toks@) == cmap_tokens(line@),
            r@.len() == k,
            forall|m: int| 0 <= m < k ==> #[trigger] r@[m]@ == cmap_tokens(line@)[m],
        decreases toks@.len() - k,
    {
        assert(views(toks@)[k as int] == toks@[k as int]@);
        r.push(string_of(&toks[k]));
        k = k + 1;
    }
    r
}

/// Reads a hex token like `<0053>` or `<20>`.
pub fn parse_cmap_hex(s: &str) -> (r: Option<u32>)
    ensures
        r matches Some(v) ==> cmap_hex(s@) == Some(v as int),
        r is None ==> cmap_hex(s@) is None,
{
    let cs = chars_of(s);
    cmap_hex_value(&cs)
}

/// The table of the 65536 two-byte codes that a code-to-character map
/// gives.
pub open spec fn table_of(m: Map<u16, char>) -> Seq<Option<char>> {
    Seq::new(0x10000, |k: int| if m.contains_key(k as u16) { Some(m[k as u16]) } else { None })
}

/// The code-to-character map of a table of the 65536 two-byte codes.
pub open spec fn map_of_table(t: Seq<Option<char>>) -> Map<u16, char> {
    Map::new(|k: u16| t[k as int] is Some, |k: u16| t[k as int]->0)
}

fn table_from_map(m: &HashMap<u16, char>) -> (t: Vec<Option<char>>)
    ensures
        t@ == table_of(m@),
{
    broadcast use vstd::std_specs::hash::group_hash_axioms;
    let mut t: Vec<Option<char>> = Vec::new();
    let mut k: u32 = 0;
    while k < 0x10000
        invariant
            k <= 0x10000,
            t@.len() == k,
            forall|j: int| 0 <= j < k ==> #[trigger] t@[j] == table_of(m@)[j],
        decreases 0x10000 - k,
    {
        let key: u16 = k as u16;
        match m.get(&key) {
            Some(c) => t.push(Some(*c)),
            None => t.push(None),
        }
        k = k + 1;
    }
    assert(t@ =~= table_of(m@));
    t
}

fn map_from_table(t: &Vec<Option<char>>, m: &mut HashMap<u16, char>)
    requires
        t@.len() == 0x10000,
    ensures
        final(m)@ == map_of_table(t@),
{
    broadcast use vstd::std_specs::hash::group_hash_axioms;
    m.clear();
    let mut k: u32 = 0;
    while k < 0x10000
        invariant
            k <= 0x10000,
            t@.len() == 0x10000,
            m@ == map_of_table(t@).restrict(Set::new(|c: u16| c < k)),
        decreases 0x10000 - k,
    {
        let key: u16 = k as u16;
        match t[k as usize] {
            Some(c) => {
                m.insert(key, c);
            },
            None => {},
        }
        k = k + 1;
        assert(m@ =~= map_of_table(t@).restrict(Set::new(|c: u16| c < k)));
    }
    assert(m@ =~= map_of_table(t@));
}

/// Reads the ToUnicode CMap `content` into `map`, from two-byte codes to
/// characters, and returns how many entries it wrote.  A `bfrange` whose
/// targets run past `u32::MAX` overflows the reading, and so does a count
/// past `usize::MAX`; both are left out.
pub fn parse_tounicode_cmap_u16(content: &str, map: &mut HashMap<u16, char>) -> (added: usize)
    requires
        !parse_cmap(content@, state_of(table_of(old(map)@), 0, false)).overflow,
        parse_cmap(content@, state_of(table_of(old(map)@), 0, false)).added <= usize::MAX,
    ensures
        final(map)@ == map_of_table(parse_cmap(content@, state_of(table_of(old(map)@), 0, false)).table),
        added as nat == parse_cmap(content@, state_of(table_of(old(map)@), 0, false)).added,
{
    let cs = chars_of(content);
    let mut table = table_from_map(map);
    let (added, _) = read_cmap(&cs, &mut table);
    map_from_table(&table, map);
    added as usize
}

} // verus!
