//! Bills of lading: the ticket list and the delivery address that the text
//! of a shipping PDF holds.

use vstd::prelude::*;
use crate::text::{all_ascii, ascii_upper, lemma_text_lines_around, lemma_trim_end_at, lemma_trim_start_at, matches_at, all_digits, alpha_count, byte_len, char_is_alpha, char_is_digit, char_is_ws, chars_eq, chars_of, contains, copy_range, count_alpha, count_digit, digit_count, has_lit, is_all_digits, is_alpha, is_digit, is_ws, join, join_chars, lemma_count_alpha_le, lines_of, lower_chars, parse_int, parse_int_chars, to_lower, to_upper, split_whitespace, split_ws, starts_with, starts_with_chars, string_of, text_lines, trim, trim_chars, trim_end, upper_chars, utf8_len, views};

verus! {

pub open spec fn i32_min() -> int {
    -0x8000_0000
}

pub open spec fn i32_max() -> int {
    0x7fff_ffff
}

/// `str::parse::<i32>`.
pub open spec fn parse_i32(s: Seq<char>) -> Option<int> {
    parse_int(s, i32_min(), i32_max())
}

pub fn parse_i32_chars(s: &[char]) -> (r: Option<i32>)
    ensures
        r matches Some(v) ==> parse_i32(s@) == Some(v as int),
        r is None ==> parse_i32(s@) is None,
{
    match parse_int_chars(s, -0x8000_0000, 0x7fff_ffff) {
        Some(v) => Some(v as i32),
        None => None,
    }
}

// ------------------------------------------------------------------
// Room and quantity
// ------------------------------------------------------------------

/// A run of digits read as a three-digit room number followed by a quantity:
/// two quantity digits are tried first (room 100..=999, quantity 1..=99), then
/// one (quantity 1..=9).
pub open spec fn room_qty(s: Seq<char>) -> Option<(Seq<char>, int)> {
    if s.len() >= 4 && all_digits(s) {
        let n = s.len() as int;
        let r2 = parse_i32(s.take(n - 2));
        let q2 = parse_i32(s.skip(n - 2));
        let r1 = parse_i32(s.take(n - 1));
        let q1 = parse_i32(s.skip(n - 1));
        if n >= 5 && r2 is Some && q2 is Some && 100 <= r2->0 <= 999 && 1 <= q2->0 <= 99 {
            Some((s.take(n - 2), q2->0))
        } else if r1 is Some && q1 is Some && 100 <= r1->0 <= 999 && 1 <= q1->0 <= 9 {
            Some((s.take(n - 1), q1->0))
        } else {
            None
        }
    } else {
        None
    }
}

pub fn parse_room_qty(s: &[char]) -> (r: Option<(Vec<char>, i32)>)
    ensures
        r matches Some(p) ==> room_qty(s@) == Some((p.0@, p.1 as int)),
        r is None ==> room_qty(s@) is None,
{
    let n = s.len();
    if n < 4 || !is_all_digits(s) {
        return None;
    }
    if n >= 5 {
        let room = copy_range(s, 0, n - 2);
        let q = copy_range(s, n - 2, n);
        assert(room@ == s@.take(n - 2));
        assert(q@ == s@.skip(n - 2));
        let r2 = parse_i32_chars(&room);
        let q2 = parse_i32_chars(&q);
        if let (Some(rv), Some(qv)) = (r2, q2) {
            if 100 <= rv && rv <= 999 && 1 <= qv && qv <= 99 {
                return Some((room, qv));
            }
        }
    }
    let room = copy_range(s, 0, n - 1);
    let q = copy_range(s, n - 1, n);
    assert(room@ == s@.take(n - 1));
    assert(q@ == s@.skip(n - 1));
    let r1 = parse_i32_chars(&room);
    let q1 = parse_i32_chars(&q);
    if let (Some(rv), Some(qv)) = (r1, q1) {
        if 100 <= rv && rv <= 999 && 1 <= qv && qv <= 9 {
            return Some((room, qv));
        }
    }
    None
}

// ------------------------------------------------------------------
// Pieces of a line
// ------------------------------------------------------------------

/// Where the run of digits at the end of `s` starts.
pub open spec fn trailing_digits_start(s: Seq<char>) -> int
    decreases s.len(),
{
    if s.len() > 0 && is_digit(s.last()) {
        trailing_digits_start(s.drop_last())
    } else {
        s.len() as int
    }
}

proof fn lemma_trailing_digits_at(s: Seq<char>, k: int)
    requires
        0 <= k <= s.len(),
        forall|j: int| k <= j < s.len() ==> is_digit(#[trigger] s[j]),
        k == 0 || !is_digit(s[k - 1]),
    ensures
        trailing_digits_start(s) == k,
    decreases s.len() - k,
{
    if k < s.len() {
        let t = s.drop_last();
        assert forall|j: int| k <= j < t.len() implies is_digit(#[trigger] t[j]) by {
            assert(t[j] == s[j]);
        }
        if k > 0 {
            assert(t[k - 1] == s[k - 1]);
        }
        lemma_trailing_digits_at(t, k);
    }
}

pub fn trailing_digits_at(s: &[char]) -> (r: usize)
    ensures
        r as int == trailing_digits_start(s@),
        r <= s@.len(),
{
    let mut k = s.len();
    while k > 0 && char_is_digit(s[k - 1])
        invariant
            k <= s@.len(),
            forall|j: int| k <= j < s@.len() ==> is_digit(#[trigger] s@[j]),
        decreases k,
    {
        k = k - 1;
    }
    proof {
        lemma_trailing_digits_at(s@, k as int);
    }
    k
}

/// `s` without its trailing commas (`trim_end_matches(',')`).
pub open spec fn strip_commas(s: Seq<char>) -> Seq<char>
    decreases s.len(),
{
    if s.len() > 0 && s.last() == ',' {
        strip_commas(s.drop_last())
    } else {
        s
    }
}

fn strip_commas_chars(s: &[char]) -> (r: Vec<char>)
    ensures
        r@ == strip_commas(s@),
{
    let mut k = s.len();
    assert(s@.take(k as int) == s@);
    while k > 0 && s[k - 1] == ','
        invariant
            k <= s@.len(),
            strip_commas(s@) == strip_commas(s@.take(k as int)),
        decreases k,
    {
        assert(s@.take(k as int).drop_last() == s@.take(k - 1));
        k = k - 1;
    }
    assert(s@.take(k as int) == s@.subrange(0, k as int));
    copy_range(s, 0, k)
}

/// A description with trailing whitespace and commas removed; none if
/// nothing is left.
pub open spec fn clean_desc(s: Seq<char>) -> Option<Seq<char>> {
    let c = trim_end(strip_commas(trim_end(s)));
    if c.len() == 0 {
        None
    } else {
        Some(c)
    }
}

proof fn lemma_trim_end_at_ws(s: Seq<char>, k: int)
    requires
        0 <= k <= s.len(),
        forall|j: int| k <= j < s.len() ==> is_ws(#[trigger] s[j]),
        k == 0 || !is_ws(s[k - 1]),
    ensures
        trim_end(s) == s.subrange(0, k),
    decreases s.len() - k,
{
    if k == s.len() {
        assert(s.subrange(0, k) == s);
    } else {
        let t = s.drop_last();
        assert forall|j: int| k <= j < t.len() implies is_ws(#[trigger] t[j]) by {
            assert(t[j] == s[j]);
        }
        if k > 0 {
            assert(t[k - 1] == s[k - 1]);
        }
        lemma_trim_end_at_ws(t, k);
        assert(t.subrange(0, k) == s.subrange(0, k));
    }
}

fn trim_end_chars(s: &[char]) -> (r: Vec<char>)
    ensures
        r@ == trim_end(s@),
{
    let mut k = s.len();
    while k > 0 && char_is_ws(s[k - 1])
        invariant
            k <= s@.len(),
            forall|j: int| k <= j < s@.len() ==> is_ws(#[trigger] s@[j]),
        decreases k,
    {
        k = k - 1;
    }
    proof {
        lemma_trim_end_at_ws(s@, k as int);
    }
    copy_range(s, 0, k)
}

pub fn clean_description(s: &[char]) -> (r: Option<Vec<char>>)
    ensures
        r matches Some(v) ==> clean_desc(s@) == Some(v@),
        r is None ==> clean_desc(s@) is None,
{
    let a = trim_end_chars(s);
    let b = strip_commas_chars(&a);
    let c = trim_end_chars(&b);
    if c.len() == 0 {
        None
    } else {
        Some(c)
    }
}

/// Words that mark a street address.
pub open spec fn address_words(s: Seq<char>) -> bool {
    let l = to_lower(s);
    ||| contains(l, "loop"@)
    ||| contains(l, "street"@)
    ||| contains(l, " ave "@)
    ||| contains(l, "blvd"@)
    ||| contains(l, "unit "@)
    ||| contains(l, "suite"@)
    ||| contains(l, " nw"@)
    ||| contains(l, " sw"@)
    ||| contains(l, " ne,"@)
    ||| contains(l, " se,"@)
    ||| contains(l, "cynthia"@)
    ||| contains(l, "drive"@)
    ||| contains(l, "road"@)
    ||| contains(l, "lane"@)
    ||| contains(l, " st "@)
    ||| contains(l, " ct "@)
    ||| contains(l, " dr "@)
}

pub fn has_address_words(s: &[char]) -> (r: bool)
    ensures
        r == address_words(s@),
{
    let l = lower_chars(s);
    has_lit(&l, "loop") || has_lit(&l, "street") || has_lit(&l, " ave ") || has_lit(&l, "blvd") || has_lit(&l, "unit ")
        || has_lit(&l, "suite") || has_lit(&l, " nw") || has_lit(&l, " sw") || has_lit(&l, " ne,") || has_lit(&l, " se,")
        || has_lit(&l, "cynthia") || has_lit(&l, "drive") || has_lit(&l, "road") || has_lit(&l, "lane") || has_lit(
        &l,
        " st ",
    ) || has_lit(&l, " ct ") || has_lit(&l, " dr ")
}

/// Fewer than `num/den` of the bytes of `s` are ASCII letters
/// (the length counted as at least 1).
pub open spec fn garbled(s: Seq<char>, num: int, den: int) -> bool {
    let len = if utf8_len(s) == 0 {
        1
    } else {
        utf8_len(s) as int
    };
    den * count_alpha(s) < num * len
}

fn is_garbled(s: &[char], num: usize, den: usize) -> (r: bool)
    requires
        num <= 10,
        den <= 10,
    ensures
        r == garbled(s@, num as int, den as int),
{
    let n = s.len();
    let bl = byte_len(s);
    assert(bl <= 4 * n);
    let len = if bl == 0 {
        1
    } else {
        bl
    };
    let a = alpha_count(s);
    proof {
        lemma_count_alpha_le(s@);
    }
    let d = den as u128;
    let nn = num as u128;
    let aa = a as u128;
    assert(aa <= 0xFFFF_FFFF_FFFF_FFFF);
    assert(len <= 4 * 0xFFFF_FFFF_FFFF_FFFF);
    assert(d * aa <= 10 * 0xFFFF_FFFF_FFFF_FFFF) by (nonlinear_arith)
        requires
            d <= 10,
            aa <= 0xFFFF_FFFF_FFFF_FFFF,
    ;
    assert(nn * len <= 40 * 0xFFFF_FFFF_FFFF_FFFF) by (nonlinear_arith)
        requires
            nn <= 10,
            len <= 4 * 0xFFFF_FFFF_FFFF_FFFF,
    ;
    d * aa < nn * len
}

/// A word that starts with `*` marks a group header.
pub open spec fn starred(s: Seq<char>) -> bool {
    starts_with(s, "*"@)
}

pub fn is_starred(s: &[char]) -> (r: bool)
    ensures
        r == starred(s@),
{
    let p = chars_of("*");
    starts_with_chars(s, &p)
}


// ------------------------------------------------------------------
// Reading one ticket
// ------------------------------------------------------------------

/// What the lines at a ticket number give: lines to pass over with nothing
/// recorded, or a description, a room, a quantity and the lines they took.
pub enum Piece {
    Skip(nat),
    Item(Option<Seq<char>>, Option<Seq<char>>, int, nat),
}

pub enum PieceE {
    Skip(usize),
    Item(Option<Vec<char>>, Option<Vec<char>>, i32, usize),
}

pub open spec fn opt_view(o: Option<Vec<char>>) -> Option<Seq<char>> {
    match o {
        Some(v) => Some(v@),
        None => None,
    }
}

pub open spec fn piece_view(p: PieceE) -> Piece {
    match p {
        PieceE::Skip(k) => Piece::Skip(k as nat),
        PieceE::Item(d, r, q, k) => Piece::Item(opt_view(d), opt_view(r), q as int, k as nat),
    }
}

/// A quantity on line `k`: an integer 1..=999.
pub open spec fn qty_at(lines: Seq<Seq<char>>, k: int) -> Option<int> {
    if 0 <= k < lines.len() {
        match parse_i32(trim(lines[k])) {
            Some(q) => if 1 <= q <= 999 {
                Some(q)
            } else {
                None
            },
            None => None,
        }
    } else {
        None
    }
}

/// Every character is an ASCII letter or whitespace.
pub open spec fn label_chars(u: Seq<char>) -> bool {
    forall|j: int| 0 <= j < u.len() ==> is_alpha(#[trigger] u[j]) || is_ws(u[j])
}

/// After a description line at `i + 1`: the room and quantity on the lines
/// that follow it.
pub open spec fn after_description(lines: Seq<Seq<char>>, i: int, desc: Seq<char>) -> Piece {
    let n = lines.len() as int;
    if n - i > 2 {
        let rq = lines[i + 2];
        let rq_all = rq.len() > 0 && all_digits(rq);
        if rq_all && 3 <= rq.len() <= 5 {
            match room_qty(rq) {
                Some((r, q)) => Piece::Item(Some(desc), Some(r), q, 3),
                None => Piece::Item(Some(desc), None, 1, 2),
            }
        } else if rq_all && 1 <= rq.len() <= 3 {
            let num = match parse_i32(rq) {
                Some(v) => v,
                None => 0,
            };
            if 100 <= num <= 999 {
                match qty_at(lines, i + 3) {
                    Some(q) => Piece::Item(Some(desc), Some(rq), q, 4),
                    None => Piece::Item(Some(desc), Some(rq), 1, 3),
                }
            } else if 1 <= num <= 99 {
                Piece::Item(Some(desc), None, num, 3)
            } else {
                Piece::Item(Some(desc), None, 1, 2)
            }
        } else if !rq_all && rq.len() > 0 && label_chars(to_upper(rq)) && 2 <= utf8_len(rq)
            <= 15 {
            match qty_at(lines, i + 3) {
                Some(q) => Piece::Item(Some(desc), Some(rq), q, 4),
                None => Piece::Item(Some(desc), Some(rq), 1, 3),
            }
        } else {
            Piece::Item(Some(desc), None, 1, 2)
        }
    } else {
        Piece::Item(Some(desc), None, 1, 2)
    }
}

/// A header that a description line cannot be.
pub open spec fn header_like(u: Seq<char>) -> bool {
    ||| contains(u, "TICKETS"@)
    ||| contains(u, "HARDWARE"@)
    ||| contains(u, "SHIPPING"@)
    ||| (contains(u, "PRIORITY"@) && contains(u, "TICKET"@))
    ||| contains(u, "REPORT REF"@)
    ||| contains(u, "PAGE "@)
}

/// A ticket number alone on line `i`: the description, room and quantity on
/// the lines that follow.
pub open spec fn multiline_piece(lines: Seq<Seq<char>>, i: int) -> Piece {
    let n = lines.len() as int;
    if i + 1 < n {
        let next = lines[i + 1];
        if starred(next) {
            Piece::Skip(2)
        } else {
            let next_all = next.len() > 0 && all_digits(next);
            if next_all && 3 <= next.len() <= 5 {
                match room_qty(next) {
                    Some((r, q)) => Piece::Item(None, Some(r), q, 2),
                    None => Piece::Skip(2),
                }
            } else if !next_all && next.len() > 0 && !header_like(to_upper(next)) && !(
            utf8_len(next) < 4 || (garbled(next, 2, 5) && !contains(next, " - "@))) {
                let ds = trailing_digits_start(next);
                let tr = next.skip(ds);
                let rq = if !contains(next, " - "@) && tr.len() > 0 {
                    room_qty(tr)
                } else {
                    None
                };
                match rq {
                    Some((r, q)) => Piece::Item(clean_desc(next.take(ds)), Some(r), q, 2),
                    None => after_description(lines, i, next),
                }
            } else {
                Piece::Skip(1)
            }
        }
    } else {
        Piece::Skip(1)
    }
}

fn qty_at_exec(lines: &Vec<Vec<char>>, k: usize) -> (r: Option<i32>)
    ensures
        r matches Some(q) ==> qty_at(views(lines@), k as int) == Some(q as int),
        r is None ==> qty_at(views(lines@), k as int) is None,
{
    if k < lines.len() {
        let t = trim_chars(&lines[k]);
        match parse_i32_chars(&t) {
            Some(q) => if 1 <= q && q <= 999 {
                Some(q)
            } else {
                None
            },
            None => None,
        }
    } else {
        None
    }
}

fn is_label(u: &[char]) -> (r: bool)
    ensures
        r == label_chars(u@),
{
    let mut j: usize = 0;
    while j < u.len()
        invariant
            j <= u@.len(),
            forall|k: int| 0 <= k < j ==> is_alpha(#[trigger] u@[k]) || is_ws(u@[k]),
        decreases u@.len() - j,
    {
        if !(char_is_alpha(u[j]) || char_is_ws(u[j])) {
            return false;
        }
        j = j + 1;
    }
    true
}

fn after_description_exec(lines: &Vec<Vec<char>>, i: usize, desc: Vec<char>) -> (r: PieceE)
    requires
        i < lines@.len(),
    ensures
        piece_view(r) == after_description(views(lines@), i as int, desc@),
{
    let n = lines.len();
    if n - i > 2 {
        let rq = &lines[i + 2];
        let rq_all = rq.len() > 0 && is_all_digits(rq);
        if rq_all && 3 <= rq.len() && rq.len() <= 5 {
            match parse_room_qty(rq) {
                Some((r, q)) => PieceE::Item(Some(desc), Some(r), q, 3),
                None => PieceE::Item(Some(desc), None, 1, 2),
            }
        } else if rq_all && 1 <= rq.len() && rq.len() <= 3 {
            let num = match parse_i32_chars(rq) {
                Some(v) => v,
                None => 0,
            };
            if 100 <= num && num <= 999 {
                let room = copy_range(rq, 0, rq.len());
                assert(room@ == views(lines@)[i + 2]);
                match qty_at_exec(lines, i + 3) {
                    Some(q) => PieceE::Item(Some(desc), Some(room), q, 4),
                    None => PieceE::Item(Some(desc), Some(room), 1, 3),
                }
            } else if 1 <= num && num <= 99 {
                PieceE::Item(Some(desc), None, num, 3)
            } else {
                PieceE::Item(Some(desc), None, 1, 2)
            }
        } else if !rq_all && rq.len() > 0 && is_label(&upper_chars(rq)) && 2 <= byte_len(rq)
            && byte_len(rq) <= 15 {
            let room = copy_range(rq, 0, rq.len());
            assert(room@ == views(lines@)[i + 2]);
            match qty_at_exec(lines, i + 3) {
                Some(q) => PieceE::Item(Some(desc), Some(room), q, 4),
                None => PieceE::Item(Some(desc), Some(room), 1, 3),
            }
        } else {
            PieceE::Item(Some(desc), None, 1, 2)
        }
    } else {
        PieceE::Item(Some(desc), None, 1, 2)
    }
}

fn header_like_exec(u: &[char]) -> (r: bool)
    ensures
        r == header_like(u@),
{
    has_lit(u, "TICKETS") || has_lit(u, "HARDWARE") || has_lit(u, "SHIPPING") || (has_lit(u, "PRIORITY") && has_lit(
        u,
        "TICKET",
    )) || has_lit(u, "REPORT REF") || has_lit(u, "PAGE ")
}

fn multiline_exec(lines: &Vec<Vec<char>>, i: usize) -> (r: PieceE)
    requires
        i < lines@.len(),
    ensures
        piece_view(r) == multiline_piece(views(lines@), i as int),
{
    let n = lines.len();
    if i + 1 < n {
        let next = &lines[i + 1];
        assert(next@ == views(lines@)[i + 1]);
        if is_starred(next) {
            return PieceE::Skip(2);
        }
        let next_all = next.len() > 0 && is_all_digits(next);
        if next_all && 3 <= next.len() && next.len() <= 5 {
            match parse_room_qty(next) {
                Some((r, q)) => PieceE::Item(None, Some(r), q, 2),
                None => PieceE::Skip(2),
            }
        } else if !next_all && next.len() > 0 && !header_like_exec(&upper_chars(next)) && !(
        byte_len(next) < 4 || (is_garbled(next, 2, 5) && !has_lit(next, " - "))) {
            let ds = trailing_digits_at(next);
            let tr = copy_range(next, ds, next.len());
            assert(tr@ == next@.skip(ds as int));
            let rq = if !has_lit(next, " - ") && tr.len() > 0 {
                parse_room_qty(&tr)
            } else {
                None
            };
            match rq {
                Some((r, q)) => {
                    let head = copy_range(next, 0, ds);
                    assert(head@ == next@.take(ds as int));
                    PieceE::Item(clean_description(&head), Some(r), q, 2)
                },
                None => {
                    let desc = copy_range(next, 0, next.len());
                    assert(desc@ == next@);
                    after_description_exec(lines, i, desc)
                },
            }
        } else {
            PieceE::Skip(1)
        }
    } else {
        PieceE::Skip(1)
    }
}


/// The words after the ticket number, read as description, room and
/// quantity when the trailing digits do not hold them.
pub open spec fn fallback_piece(parts: Seq<Seq<char>>) -> Piece {
    let n = parts.len() as int;
    let lq = parse_i32(parts[n - 1]);
    let takes_q = lq is Some && 1 <= lq->0 <= 99;
    let qty = if takes_q {
        lq->0
    } else {
        1
    };
    let e1 = if takes_q {
        n - 1
    } else {
        n
    };
    let pr = parts[e1 - 1];
    let takes_r = e1 > 2 && pr.len() == 3 && all_digits(pr) && parse_i32(pr) is Some && 100
        <= parse_i32(pr)->0 <= 999;
    let e2 = if takes_r {
        e1 - 1
    } else {
        e1
    };
    let dp = parts.subrange(1, e2);
    Piece::Item(
        if dp.len() == 0 {
            None
        } else {
            Some(join(dp, " "@))
        },
        if takes_r {
            Some(pr)
        } else {
            None
        },
        qty,
        1,
    )
}

/// A ticket number followed by more words on line `i`.
pub open spec fn single_piece(parts: Seq<Seq<char>>) -> Piece {
    let first = parts[0];
    let rest = join(parts.skip(1), " "@);
    if first.len() == 5 && first[0] != '0' && (address_words(rest) || garbled(rest, 1, 2)) {
        Piece::Skip(1)
    } else if first.len() <= 4 && first[0] != '0' && (address_words(rest) || garbled(rest, 2, 5)) {
        Piece::Skip(1)
    } else {
        let ds = trailing_digits_start(rest);
        match room_qty(rest.skip(ds)) {
            Some((r, q)) => Piece::Item(clean_desc(rest.take(ds)), Some(r), q, 1),
            None => fallback_piece(parts),
        }
    }
}

fn join_space(parts: &[Vec<char>]) -> (r: Vec<char>)
    ensures
        r@ == join(views(parts@), " "@),
{
    let sp = chars_of(" ");
    join_chars(parts, &sp)
}

fn fallback_exec(parts: &Vec<Vec<char>>) -> (r: PieceE)
    requires
        parts@.len() >= 2,
    ensures
        piece_view(r) == fallback_piece(views(parts@)),
{
    let n = parts.len();
    let lq = parse_i32_chars(&parts[n - 1]);
    let mut qty: i32 = 1;
    let mut e1 = n;
    if let Some(q) = lq {
        if 1 <= q && q <= 99 {
            qty = q;
            e1 = n - 1;
        }
    }
    let pr = &parts[e1 - 1];
    let mut room: Option<Vec<char>> = None;
    let mut e2 = e1;
    if e1 > 2 && pr.len() == 3 && is_all_digits(pr) {
        if let Some(rv) = parse_i32_chars(pr) {
            if 100 <= rv && rv <= 999 {
                room = Some(copy_range(pr, 0, 3));
                e2 = e1 - 1;
                assert(pr@.subrange(0, 3) == pr@);
            }
        }
    }
    let ghost v = views(parts@);
    assert(views(parts@.subrange(1, e2 as int)) == v.subrange(1, e2 as int));
    let desc = if e2 <= 1 {
        assert(v.subrange(1, e2 as int).len() == 0);
        None
    } else {
        Some(join_space(&parts[1..e2]))
    };
    PieceE::Item(desc, room, qty, 1)
}

fn single_exec(parts: &Vec<Vec<char>>) -> (r: PieceE)
    requires
        parts@.len() >= 2,
        parts@[0]@.len() >= 1,
    ensures
        piece_view(r) == single_piece(views(parts@)),
{
    let first = &parts[0];
    let ghost v = views(parts@);
    assert(first@ == v[0]);
    assert(views(parts@.subrange(1, parts@.len() as int)) == v.skip(1));
    let rest = join_space(&parts[1..parts.len()]);
    if first.len() == 5 && first[0] != '0' && (has_address_words(&rest) || is_garbled(&rest, 1, 2)) {
        PieceE::Skip(1)
    } else if first.len() <= 4 && first[0] != '0' && (has_address_words(&rest) || is_garbled(
        &rest,
        2,
        5,
    )) {
        PieceE::Skip(1)
    } else {
        let ds = trailing_digits_at(&rest);
        let tr = copy_range(&rest, ds, rest.len());
        assert(tr@ == rest@.skip(ds as int));
        match parse_room_qty(&tr) {
            Some((r, q)) => {
                let head = copy_range(&rest, 0, ds);
                assert(head@ == rest@.take(ds as int));
                PieceE::Item(clean_description(&head), Some(r), q, 1)
            },
            None => fallback_exec(parts),
        }
    }
}

// ------------------------------------------------------------------
// The ticket list
// ------------------------------------------------------------------

/// A ticket as the specification sees it.
pub struct TicketV {
    pub number: Seq<char>,
    pub description: Option<Seq<char>>,
    pub room: Option<Seq<char>>,
    pub qty: int,
    pub section: Option<Seq<char>>,
}

/// A ticket read from a bill of lading.
pub struct Ticket {
    pub number: Vec<char>,
    pub description: Option<Vec<char>>,
    pub room: Option<Vec<char>>,
    pub qty: i32,
    pub section: Option<Vec<char>>,
}

pub open spec fn ticket_view(t: Ticket) -> TicketV {
    TicketV {
        number: t.number@,
        description: opt_view(t.description),
        room: opt_view(t.room),
        qty: t.qty as int,
        section: opt_view(t.section),
    }
}

pub open spec fn tickets_view(ts: Seq<Ticket>) -> Seq<TicketV> {
    ts.map_values(|t: Ticket| ticket_view(t))
}

/// The first ticket at or after `k` with number `num`.
pub open spec fn find_ticket(ts: Seq<TicketV>, num: Seq<char>, k: int) -> Option<int>
    decreases ts.len() - k,
{
    if k < 0 || k >= ts.len() {
        None
    } else if ts[k].number == num {
        Some(k)
    } else {
        find_ticket(ts, num, k + 1)
    }
}

pub open spec fn desc_len(d: Option<Seq<char>>) -> nat {
    match d {
        Some(x) => utf8_len(x),
        None => 0,
    }
}

/// A second reading of a ticket replaces the first when it has a room and
/// the first has none, or when both agree on having a room and the second
/// has the longer description.
pub open spec fn replaces(old: TicketV, new: TicketV) -> bool {
    ||| (old.room is None && new.room is Some)
    ||| ((old.room is Some) == (new.room is Some) && desc_len(new.description) > desc_len(
        old.description,
    ))
}

/// The ticket list after reading `t`.
pub open spec fn record(ts: Seq<TicketV>, t: TicketV) -> Seq<TicketV> {
    if t.description matches Some(d) && contains(to_lower(d), "see inside"@) {
        ts
    } else {
        match find_ticket(ts, t.number, 0) {
            Some(k) => if replaces(ts[k], t) {
                ts.update(k, t)
            } else {
                ts
            },
            None => ts.push(t),
        }
    }
}

pub open spec fn section_header(u: Seq<char>) -> bool {
    ||| contains(u, "TICKETS"@)
    ||| contains(u, "HARDWARE"@)
    ||| contains(u, "SHIPPING"@)
    ||| contains(u, "ADVICE"@)
    ||| contains(u, "BILL OF LADING"@)
}

pub open spec fn column_header(u: Seq<char>) -> bool {
    ||| (contains(u, "PRIORITY"@) && contains(u, "TICKET"@))
    ||| contains(u, "REPORT REF"@)
    ||| contains(u, "RUN DATE"@)
    ||| (contains(u, "DESCRIPTION"@) && utf8_len(u) < 20)
    ||| u == "QTY"@
    ||| u == "ROOM"@
}

/// A ticket number: three to eight digits.
pub open spec fn ticket_number(w: Seq<char>) -> bool {
    3 <= w.len() <= 8 && all_digits(w)
}

/// Where the reading stands: the next line, the tickets so far, the section
/// header last seen, and whether one was seen.
pub struct LadingState {
    pub i: int,
    pub tickets: Seq<TicketV>,
    pub section: Option<Seq<char>>,
    pub seen: bool,
}

pub open spec fn lading_start() -> LadingState {
    LadingState { i: 0, tickets: Seq::empty(), section: None, seen: false }
}

pub open spec fn piece_len(p: Piece) -> nat {
    match p {
        Piece::Skip(k) => k,
        Piece::Item(_, _, _, k) => k,
    }
}

/// Reads line `st.i`.
pub open spec fn lading_step(lines: Seq<Seq<char>>, st: LadingState) -> LadingState {
    let i = st.i;
    let line = lines[i];
    let u = to_upper(line);
    if section_header(u) {
        LadingState { i: i + 1, section: Some(line), seen: true, ..st }
    } else if column_header(u) || !st.seen {
        LadingState { i: i + 1, ..st }
    } else {
        let parts = split_ws(line);
        if parts.len() == 0 || !ticket_number(parts[0]) || (parts.len() > 1 && starred(parts[1])) {
            LadingState { i: i + 1, ..st }
        } else {
            let p = if parts.len() == 1 {
                multiline_piece(lines, i)
            } else {
                single_piece(parts)
            };
            match p {
                Piece::Skip(k) => LadingState { i: i + k, ..st },
                Piece::Item(d, r, q, k) => LadingState {
                    i: i + k,
                    tickets: record(
                        st.tickets,
                        TicketV { number: parts[0], description: d, room: r, qty: q, section: st.section },
                    ),
                    ..st
                },
            }
        }
    }
}

pub open spec fn piece_fits(p: Piece, i: int, n: int) -> bool {
    1 <= piece_len(p) && i + piece_len(p) <= n && (p matches Piece::Item(_, _, q, _) ==> 1 <= q
        <= 999)
}

/// A quantity read after a room name is between 1 and 99.
pub proof fn lemma_room_qty_bounds(s: Seq<char>)
    ensures
        room_qty(s) matches Some((r, q)) ==> 1 <= q <= 99,
{
}

/// A line of one word gives a piece that fits in the lines
/// left.
pub proof fn lemma_multiline_fits(lines: Seq<Seq<char>>, i: int)
    requires
        0 <= i < lines.len(),
    ensures
        piece_fits(multiline_piece(lines, i), i, lines.len() as int),
{
    let n = lines.len() as int;
    if i + 1 < n {
        let next = lines[i + 1];
        lemma_room_qty_bounds(next);
        lemma_room_qty_bounds(next.skip(trailing_digits_start(next)));
    }
}

/// A line with more than one word gives a piece that fits in the lines
/// left.
pub proof fn lemma_single_fits(parts: Seq<Seq<char>>, i: int, n: int)
    requires
        0 <= i < n,
        parts.len() >= 2,
    ensures
        piece_fits(single_piece(parts), i, n),
{
    let rest = join(parts.skip(1), " "@);
    lemma_room_qty_bounds(rest.skip(trailing_digits_start(rest)));
}

/// Each step moves past at least one line and not past the last.
pub proof fn lemma_step_advances(lines: Seq<Seq<char>>, st: LadingState)
    requires
        0 <= st.i < lines.len(),
    ensures
        st.i < lading_step(lines, st).i <= lines.len(),
{
    let parts = split_ws(lines[st.i]);
    if parts.len() == 1 {
        lemma_multiline_fits(lines, st.i);
    } else if parts.len() >= 2 {
        lemma_single_fits(parts, st.i, lines.len() as int);
    }
}

/// Reads the lines from `st.i` to the end.
pub open spec fn lading_run(lines: Seq<Seq<char>>, st: LadingState) -> LadingState
    decreases lines.len() - st.i,
{
    if st.i < 0 || st.i >= lines.len() {
        st
    } else {
        proof {
            lemma_step_advances(lines, st);
        }
        lading_run(lines, lading_step(lines, st))
    }
}

/// The tickets of a bill of lading's text.
pub open spec fn lading_tickets(text: Seq<char>) -> Seq<TicketV> {
    lading_run(text_lines(text), lading_start()).tickets
}


fn copy_opt(o: &Option<Vec<char>>) -> (r: Option<Vec<char>>)
    ensures
        opt_view(r) == opt_view(*o),
{
    match o {
        Some(v) => Some(copy_range(v, 0, v.len())),
        None => None,
    }
}

fn find_ticket_exec(ts: &Vec<Ticket>, num: &[char]) -> (r: Option<usize>)
    ensures
        r matches Some(k) ==> find_ticket(tickets_view(ts@), num@, 0) == Some(k as int) && k
            < ts@.len(),
        r is None ==> find_ticket(tickets_view(ts@), num@, 0) is None,
{
    let ghost tv = tickets_view(ts@);
    let mut k: usize = 0;
    while k < ts.len()
        invariant
            k <= ts@.len(),
            tv == tickets_view(ts@),
            find_ticket(tv, num@, 0) == find_ticket(tv, num@, k as int),
        decreases ts@.len() - k,
    {
        assert(tv[k as int].number == ts@[k as int].number@);
        if chars_eq(&ts[k].number, num) {
            return Some(k);
        }
        k = k + 1;
    }
    None
}

fn record_exec(ts: &mut Vec<Ticket>, t: Ticket)
    ensures
        tickets_view(final(ts)@) == record(tickets_view(old(ts)@), ticket_view(t)),
{
    let see_inside = match &t.description {
        Some(d) => has_lit(&lower_chars(d), "see inside"),
        None => false,
    };
    if see_inside {
        return;
    }
    match find_ticket_exec(ts, &t.number) {
        Some(k) => {
            let ex = &ts[k];
            let ex_len: u128 = match &ex.description {
                Some(d) => byte_len(d),
                None => 0,
            };
            let new_len: u128 = match &t.description {
                Some(d) => byte_len(d),
                None => 0,
            };
            let ex_room = ex.room.is_some();
            let new_room = t.room.is_some();
            let replace = (!ex_room && new_room) || (ex_room == new_room && new_len > ex_len);
            if replace {
                let ghost before = tickets_view(ts@);
                let ghost tv = ticket_view(t);
                ts.set(k, t);
                assert(tickets_view(ts@) =~= before.update(k as int, tv));
            }
        },
        None => {
            let ghost before = tickets_view(ts@);
            let ghost tv = ticket_view(t);
            ts.push(t);
            assert(tickets_view(ts@) =~= before.push(tv));
        },
    }
}

pub open spec fn state_of(i: usize, ts: Seq<Ticket>, section: Option<Vec<char>>, seen: bool) -> LadingState {
    LadingState { i: i as int, tickets: tickets_view(ts), section: opt_view(section), seen }
}

fn section_header_exec(u: &[char]) -> (r: bool)
    ensures
        r == section_header(u@),
{
    has_lit(u, "TICKETS") || has_lit(u, "HARDWARE") || has_lit(u, "SHIPPING") || has_lit(u, "ADVICE")
        || has_lit(u, "BILL OF LADING")
}

fn column_header_exec(u: &[char]) -> (r: bool)
    ensures
        r == column_header(u@),
{
    let qty = chars_of("QTY");
    let room = chars_of("ROOM");
    (has_lit(u, "PRIORITY") && has_lit(u, "TICKET")) || has_lit(u, "REPORT REF") || has_lit(
        u,
        "RUN DATE",
    ) || (has_lit(u, "DESCRIPTION") && byte_len(u) < 20) || chars_eq(u, &qty) || chars_eq(u, &room)
}

/// Reads line `i`; returns the next line to read.
fn lading_step_exec(
    lines: &Vec<Vec<char>>,
    i: usize,
    tickets: &mut Vec<Ticket>,
    section: &mut Option<Vec<char>>,
    seen: &mut bool,
) -> (r: usize)
    requires
        i < lines@.len(),
    ensures
        state_of(r, final(tickets)@, *final(section), *final(seen)) == lading_step(
            views(lines@),
            state_of(i, old(tickets)@, *old(section), *old(seen)),
        ),
{
    let ghost lv = views(lines@);
    let n = lines.len();
    assert(i + 1 <= n);
    let line = &lines[i];
    assert(line@ == lv[i as int]);
    let u = upper_chars(line);
    if section_header_exec(&u) {
        *section = Some(copy_range(line, 0, line.len()));
        *seen = true;
        assert(line@.subrange(0, line@.len() as int) == line@);
        return i + 1;
    }
    if column_header_exec(&u) || !*seen {
        return i + 1;
    }
    let parts = split_whitespace(line);
    assert(views(parts@) == split_ws(lv[i as int]));
    if parts.len() == 0 {
        return i + 1;
    }
    let first = &parts[0];
    assert(first@ == views(parts@)[0]);
    if !(3 <= first.len() && first.len() <= 8 && is_all_digits(first)) {
        return i + 1;
    }
    if parts.len() > 1 {
        assert(parts@[1]@ == views(parts@)[1]);
        if is_starred(&parts[1]) {
            return i + 1;
        }
    }
    let p = if parts.len() == 1 {
        multiline_exec(lines, i)
    } else {
        single_exec(&parts)
    };
    proof {
        if parts.len() == 1 {
            lemma_multiline_fits(lv, i as int);
        } else {
            lemma_single_fits(views(parts@), i as int, lv.len() as int);
        }
    }
    match p {
        PieceE::Skip(k) => i + k,
        PieceE::Item(d, r, q, k) => {
            let t = Ticket {
                number: copy_range(first, 0, first.len()),
                description: d,
                room: r,
                qty: q,
                section: copy_opt(section),
            };
            assert(first@.subrange(0, first@.len() as int) == first@);
            record_exec(tickets, t);
            i + k
        },
    }
}

proof fn lemma_run_unfold(lines: Seq<Seq<char>>, st: LadingState)
    requires
        0 <= st.i < lines.len(),
    ensures
        lading_run(lines, st) == lading_run(lines, lading_step(lines, st)),
{
}

/// Reads all lines.
fn lading_run_exec(lines: &Vec<Vec<char>>) -> (r: Vec<Ticket>)
    ensures
        tickets_view(r@) == lading_run(views(lines@), lading_start()).tickets,
{
    let ghost lv = views(lines@);
    let mut i: usize = 0;
    let mut tickets: Vec<Ticket> = Vec::new();
    let mut section: Option<Vec<char>> = None;
    let mut seen = false;
    assert(tickets_view(tickets@) =~= Seq::<TicketV>::empty());
    while i < lines.len()
        invariant
            i <= lines@.len(),
            lv == views(lines@),
            lading_run(lv, lading_start()) == lading_run(lv, state_of(i, tickets@, section, seen)),
        decreases lines@.len() - i,
    {
        let ghost st = state_of(i, tickets@, section, seen);
        proof {
            lemma_run_unfold(lv, st);
            lemma_step_advances(lv, st);
        }
        i = lading_step_exec(lines, i, &mut tickets, &mut section, &mut seen);
    }
    tickets
}


// ------------------------------------------------------------------
// What every ticket list satisfies
// ------------------------------------------------------------------

/// Every ticket has a valid number, a quantity in 1..=999 and the section
/// it stood under, and no two tickets share a number.
pub open spec fn tickets_ok(ts: Seq<TicketV>) -> bool {
    &&& forall|k: int|
        0 <= k < ts.len() ==> ticket_number(#[trigger] ts[k].number) && 1 <= ts[k].qty <= 999
            && ts[k].section is Some
    &&& forall|a: int, b: int| 0 <= a < b < ts.len() ==> ts[a].number != ts[b].number
}

pub open spec fn state_ok(st: LadingState) -> bool {
    tickets_ok(st.tickets) && (st.seen ==> st.section is Some)
}

proof fn lemma_find_ticket(ts: Seq<TicketV>, num: Seq<char>, k: int)
    requires
        0 <= k,
    ensures
        find_ticket(ts, num, k) matches Some(j) ==> k <= j < ts.len() && ts[j].number == num,
        find_ticket(ts, num, k) is None ==> forall|j: int| k <= j < ts.len() ==> ts[j].number != num,
    decreases ts.len() - k,
{
    if k < ts.len() && ts[k].number != num {
        lemma_find_ticket(ts, num, k + 1);
    }
}

proof fn lemma_record_ok(ts: Seq<TicketV>, t: TicketV)
    requires
        tickets_ok(ts),
        ticket_number(t.number),
        1 <= t.qty <= 999,
        t.section is Some,
    ensures
        tickets_ok(record(ts, t)),
{
    lemma_find_ticket(ts, t.number, 0);
    let r = record(ts, t);
    assert forall|a: int, b: int| 0 <= a < b < r.len() implies r[a].number != r[b].number by {
        if a < ts.len() && b < ts.len() {
            assert(ts[a].number != ts[b].number);
        }
    }
}

proof fn lemma_step_ok(lines: Seq<Seq<char>>, st: LadingState)
    requires
        state_ok(st),
        0 <= st.i < lines.len(),
    ensures
        state_ok(lading_step(lines, st)),
{
    let parts = split_ws(lines[st.i]);
    if parts.len() == 1 {
        lemma_multiline_fits(lines, st.i);
    } else if parts.len() >= 2 {
        lemma_single_fits(parts, st.i, lines.len() as int);
    }
    let u = to_upper(lines[st.i]);
    if !section_header(u) && !(column_header(u) || !st.seen) && parts.len() > 0 && ticket_number(
        parts[0],
    ) && !(parts.len() > 1 && starred(parts[1])) {
        let p = if parts.len() == 1 {
            multiline_piece(lines, st.i)
        } else {
            single_piece(parts)
        };
        if let Piece::Item(d, r, q, k) = p {
            lemma_record_ok(
                st.tickets,
                TicketV { number: parts[0], description: d, room: r, qty: q, section: st.section },
            );
        }
    }
}

/// Reading the rest of the lines keeps the state's invariant.
pub proof fn lemma_run_ok(lines: Seq<Seq<char>>, st: LadingState)
    requires
        state_ok(st),
        st.i >= 0,
    ensures
        state_ok(lading_run(lines, st)),
    decreases lines.len() - st.i,
{
    if st.i < lines.len() {
        lemma_step_advances(lines, st);
        lemma_step_ok(lines, st);
        lemma_run_ok(lines, lading_step(lines, st));
    }
}

/// A line is a section header where its upper case holds `TICKETS`,
/// `HARDWARE`, `SHIPPING`, `ADVICE` or `BILL OF LADING`.
pub open spec fn names_section(line: Seq<char>) -> bool {
    let u = to_upper(line);
    contains(u, "TICKETS"@) || contains(u, "HARDWARE"@) || contains(u, "SHIPPING"@) || contains(u, "ADVICE"@)
        || contains(u, "BILL OF LADING"@)
}

/// Tickets are filed under the section they stand in.  Reading a section
/// header line makes it the current section, whatever came before; reading
/// any other line leaves the current section as it was; and after reading a
/// line every ticket is either one filed before, unchanged, or one read
/// from that line, filed under the section current when it was read.
pub proof fn lemma_tickets_filed_under_their_section(lines: Seq<Seq<char>>, st: LadingState)
    requires
        0 <= st.i < lines.len(),
    ensures
        names_section(lines[st.i]) ==> lading_step(lines, st).section == Some(lines[st.i]),
        !names_section(lines[st.i]) ==> lading_step(lines, st).section == st.section,
        lading_step(lines, st).tickets.len() >= st.tickets.len(),
        forall|k: int|
            0 <= k < lading_step(lines, st).tickets.len() ==> (k < st.tickets.len() && (#[trigger] lading_step(
                lines,
                st,
            ).tickets[k]) == st.tickets[k]) || lading_step(lines, st).tickets[k].section == st.section,
{
    let s2 = lading_step(lines, st);
    let line = lines[st.i];
    let parts = split_ws(line);
    if !section_header(to_upper(line)) && !column_header(to_upper(line)) && st.seen && parts.len() > 0 && ticket_number(
        parts[0],
    ) && !(parts.len() > 1 && starred(parts[1])) {
        let p = if parts.len() == 1 {
            multiline_piece(lines, st.i)
        } else {
            single_piece(parts)
        };
        match p {
            Piece::Skip(k) => {},
            Piece::Item(d, r, q, k) => {
                let t = TicketV { number: parts[0], description: d, room: r, qty: q, section: st.section };
                lemma_find_ticket(st.tickets, t.number, 0);
                assert(s2.tickets == record(st.tickets, t));
            },
        }
    }
}

/// The ticket list of any text satisfies `tickets_ok`.
pub proof fn lemma_lading_tickets_ok(text: Seq<char>)
    ensures
        tickets_ok(lading_tickets(text)),
{
    lemma_run_ok(text_lines(text), lading_start());
}

// ------------------------------------------------------------------
// Public entry points
// ------------------------------------------------------------------

pub open spec fn opt_str(o: Option<String>) -> Option<Seq<char>> {
    match o {
        Some(s) => Some(s@),
        None => None,
    }
}

fn opt_string(o: &Option<Vec<char>>) -> (r: Option<String>)
    ensures
        opt_str(r) == opt_view(*o),
{
    match o {
        Some(v) => Some(string_of(v)),
        None => None,
    }
}

/// A ticket row: job id, file uuid, ticket number, description, room,
/// quantity and section.
pub type TicketRow = (String, String, String, Option<String>, Option<String>, i32, Option<String>);

/// The row holds ticket `t` of the file `file_uuid` of job `job_id`.
pub open spec fn row_is(row: TicketRow, job_id: Seq<char>, file_uuid: Seq<char>, t: TicketV) -> bool {
    &&& row.0@ == job_id
    &&& row.1@ == file_uuid
    &&& row.2@ == t.number
    &&& opt_str(row.3) == t.description
    &&& opt_str(row.4) == t.room
    &&& row.5 as int == t.qty
    &&& opt_str(row.6) == t.section
}

/// Parses the text of a bill of lading into ticket rows, one per ticket
/// number, in the order the numbers first appear.
pub fn parse_lading_tickets(text: &str, job_id: &str, file_uuid: &str, file_name: &str) -> (r: Vec<
    TicketRow,
>)
    ensures
        r@.len() == lading_tickets(text@).len(),
        forall|k: int|
            0 <= k < r@.len() ==> row_is(#[trigger] r@[k], job_id@, file_uuid@, lading_tickets(text@)[k]),
        forall|k: int|
            0 <= k < r@.len() ==> ticket_number((#[trigger] r@[k]).2@) && 1 <= r@[k].5 <= 999
                && r@[k].6 is Some,
        forall|a: int, b: int| 0 <= a < b < r@.len() ==> r@[a].2@ != r@[b].2@,
{
    let chars = chars_of(text);
    let lines = lines_of(&chars);
    let tickets = lading_run_exec(&lines);
    proof {
        lemma_lading_tickets_ok(text@);
    }
    let ghost tv = tickets_view(tickets@);
    assert(tv == lading_tickets(text@));
    let mut r: Vec<TicketRow> = Vec::new();
    let mut k: usize = 0;
    while k < tickets.len()
        invariant
            k <= tickets@.len(),
            tv == tickets_view(tickets@),
            tv == lading_tickets(text@),
            r@.len() == k,
            forall|j: int| 0 <= j < k ==> row_is(#[trigger] r@[j], job_id@, file_uuid@, tv[j]),
        decreases tickets@.len() - k,
    {
        let t = &tickets[k];
        assert(tv[k as int] == ticket_view(*t));
        let row: TicketRow = (
            String::from_str(job_id),
            String::from_str(file_uuid),
            string_of(&t.number),
            opt_string(&t.description),
            opt_string(&t.room),
            t.qty,
            opt_string(&t.section),
        );
        r.push(row);
        k = k + 1;
    }
    assert forall|k: int| 0 <= k < r@.len() implies ticket_number((#[trigger] r@[k]).2@) && 1
        <= r@[k].5 <= 999 && r@[k].6 is Some by {
        assert(row_is(r@[k], job_id@, file_uuid@, tv[k]));
    }
    assert forall|a: int, b: int| 0 <= a < b < r@.len() implies r@[a].2@ != r@[b].2@ by {
        assert(row_is(r@[a], job_id@, file_uuid@, tv[a]));
        assert(row_is(r@[b], job_id@, file_uuid@, tv[b]));
    }
    r
}

/// Same as `parse_lading_tickets`, for callers outside the API layer.
pub fn parse_lading_tickets_pub(text: &str, job_id: &str, file_uuid: &str, file_name: &str) -> (r: Vec<
    TicketRow,
>)
    ensures
        r@.len() == lading_tickets(text@).len(),
        forall|k: int|
            0 <= k < r@.len() ==> row_is(#[trigger] r@[k], job_id@, file_uuid@, lading_tickets(text@)[k]),
        forall|k: int|
            0 <= k < r@.len() ==> ticket_number((#[trigger] r@[k]).2@) && 1 <= r@[k].5 <= 999
                && r@[k].6 is Some,
        forall|a: int, b: int| 0 <= a < b < r@.len() ==> r@[a].2@ != r@[b].2@,
{
    parse_lading_tickets(text, job_id, file_uuid, file_name)
}


// ------------------------------------------------------------------
// Delivery address
// ------------------------------------------------------------------

/// A line that ends the header area of a bill of lading.
pub open spec fn bol_stop(u: Seq<char>) -> bool {
    ||| contains(u, "TICKETS"@)
    ||| contains(u, "HARDWARE"@)
    ||| contains(u, "SHIPPING"@)
    ||| contains(u, "ADVICE"@)
    ||| contains(u, "BILL OF LADING"@)
    ||| (contains(u, "PRIORITY"@) && contains(u, "TICKET"@))
    ||| contains(u, "REPORT REF"@)
    ||| contains(u, "RUN DATE"@)
}

/// Words of a lowercased line that mark an address.
pub open spec fn address_indicator(l: Seq<char>) -> bool {
    ||| contains(l, "loop"@)
    ||| contains(l, "street"@)
    ||| contains(l, " ave "@)
    ||| contains(l, "blvd"@)
    ||| contains(l, "drive"@)
    ||| contains(l, "road"@)
    ||| contains(l, "lane"@)
    ||| contains(l, " st "@)
    ||| contains(l, " ct "@)
    ||| contains(l, " dr "@)
    ||| contains(l, " nw"@)
    ||| contains(l, " sw"@)
    ||| contains(l, " ne"@)
    ||| contains(l, " se,"@)
    ||| contains(l, "unit "@)
    ||| contains(l, "suite"@)
}

/// A line like "Albuquerque, NM 87120": a comma, five digits, ten bytes.
pub open spec fn city_state_zip(line: Seq<char>) -> bool {
    contains(to_lower(line), ","@) && count_digit(line) >= 5 && utf8_len(line) >= 10
}

/// A line like "123 Main St": a number of at most six digits, then a word
/// that starts with a letter.
pub open spec fn street_number(line: Seq<char>) -> bool {
    let p = split_ws(line);
    p.len() >= 2 && utf8_len(p[0]) <= 6 && all_digits(p[0]) && p[1].len() > 0 && is_alpha(p[1][0])
}

/// A header line that is kept as part of the address.
pub open spec fn address_line(line: Seq<char>) -> bool {
    (address_indicator(to_lower(line)) || city_state_zip(line) || street_number(line))
        && !garbled(line, 2, 5)
}

/// The address lines among the lines before the first section header.
pub open spec fn bol_lines(lines: Seq<Seq<char>>) -> Seq<Seq<char>>
    decreases lines.len(),
{
    if lines.len() == 0 || bol_stop(to_upper(lines[0])) {
        Seq::empty()
    } else {
        let rest = bol_lines(lines.subrange(1, lines.len() as int));
        if address_line(lines[0]) {
            seq![lines[0]] + rest
        } else {
            rest
        }
    }
}

/// The delivery address of a bill of lading's text: its address lines
/// joined with ", ", or none.
pub open spec fn bol_address(text: Seq<char>) -> Option<Seq<char>> {
    let a = bol_lines(text_lines(text));
    if a.len() == 0 {
        None
    } else {
        Some(join(a, ", "@))
    }
}

proof fn lemma_bol_lines_stop(l1: Seq<Seq<char>>, h: Seq<char>, l2: Seq<Seq<char>>)
    requires
        bol_stop(to_upper(h)),
    ensures
        bol_lines(l1 + seq![h] + l2) == bol_lines(l1),
    decreases l1.len(),
{
    let all = l1 + seq![h] + l2;
    if l1.len() == 0 {
        assert(all[0] == h);
    } else {
        assert(all[0] == l1[0]);
        let t1 = l1.subrange(1, l1.len() as int);
        assert(all.subrange(1, all.len() as int) =~= t1 + seq![h] + l2);
        lemma_bol_lines_stop(t1, h, l2);
    }
}

/// Nothing after the first section header changes the delivery address:
/// in text that holds a header line `h` (one whose upper case is a stop
/// line), the address is that of the text before it.
pub proof fn lemma_bol_address_ends_at_header(a: Seq<char>, h: Seq<char>, b: Seq<char>)
    requires
        forall|k: int| 0 <= k < h.len() ==> h[k] != '\n',
        trim(h).len() > 0,
        bol_stop(to_upper(trim(h))),
    ensures
        bol_address(a + seq!['\n'] + h + seq!['\n'] + b) == bol_address(a),
{
    lemma_text_lines_around(a, h, b);
    lemma_bol_lines_stop(text_lines(a), trim(h), text_lines(b));
}

proof fn lemma_tickets_trimmed()
    ensures
        "TICKETS"@.len() == 7,
        trim("TICKETS"@) == "TICKETS"@,
        forall|k: int| 0 <= k < "TICKETS"@.len() ==> "TICKETS"@[k] != '\n',
{
    reveal_strlit("TICKETS");
    let h = "TICKETS"@;
    lemma_trim_start_at(h, 0);
    assert(h.subrange(0, 7) =~= h);
    lemma_trim_end_at(h, 7);
}

proof fn lemma_tickets_upper()
    ensures
        to_upper("TICKETS"@) == "TICKETS"@,
{
    reveal_strlit("TICKETS");
    let h = "TICKETS"@;
    assert(all_ascii(h));
    assert(ascii_upper(h) =~= h);
}

proof fn lemma_tickets_stop()
    ensures
        bol_stop("TICKETS"@),
{
    reveal_strlit("TICKETS");
    let h = "TICKETS"@;
    assert(h.subrange(0, 7) =~= h);
    assert(matches_at(h, "TICKETS"@, 0));
}

/// A `TICKETS` line ends the delivery address: what follows it is never
/// read for the address.
pub proof fn lemma_bol_address_ends_at_tickets(a: Seq<char>, b: Seq<char>)
    ensures
        bol_address(a + "\nTICKETS\n"@ + b) == bol_address(a),
{
    let h = "TICKETS"@;
    assert(a + "\nTICKETS\n"@ + b =~= a + seq!['\n'] + h + seq!['\n'] + b) by {
        reveal_strlit("\nTICKETS\n");
        reveal_strlit("TICKETS");
    }
    lemma_tickets_trimmed();
    lemma_tickets_upper();
    lemma_tickets_stop();
    lemma_bol_address_ends_at_header(a, h, b);
}

/// A line that ends the address part of a bill of lading: its upper case
/// names a section (`TICKETS`, `HARDWARE`, `SHIPPING`, `ADVICE`, `BILL OF
/// LADING`), a priority ticket column, a report reference or a run date.
pub open spec fn ends_address_part(line: Seq<char>) -> bool {
    let u = to_upper(line);
    ||| contains(u, "TICKETS"@)
    ||| contains(u, "HARDWARE"@)
    ||| contains(u, "SHIPPING"@)
    ||| contains(u, "ADVICE"@)
    ||| contains(u, "BILL OF LADING"@)
    ||| (contains(u, "PRIORITY"@) && contains(u, "TICKET"@))
    ||| contains(u, "REPORT REF"@)
    ||| contains(u, "RUN DATE"@)
}

/// A street line, "123 Main St": a first word of at most six digits, then
/// a word that starts with an ASCII letter.
pub open spec fn street_line(line: Seq<char>) -> bool {
    let w = split_ws(line);
    &&& w.len() >= 2
    &&& utf8_len(w[0]) <= 6
    &&& forall|k: int| 0 <= k < w[0].len() ==> '0' <= #[trigger] w[0][k] <= '9'
    &&& w[1].len() > 0
    &&& (('a' <= w[1][0] <= 'z') || ('A' <= w[1][0] <= 'Z'))
}

/// A city line, "Albuquerque, NM 87120": a comma, at least five digits and
/// at least ten bytes.
pub open spec fn city_line(line: Seq<char>) -> bool {
    contains(to_lower(line), ","@) && count_digit(line) >= 5 && utf8_len(line) >= 10
}

/// A line that names a street, road, suite or the like.
pub open spec fn street_word_line(line: Seq<char>) -> bool {
    let l = to_lower(line);
    ||| contains(l, "loop"@)
    ||| contains(l, "street"@)
    ||| contains(l, " ave "@)
    ||| contains(l, "blvd"@)
    ||| contains(l, "drive"@)
    ||| contains(l, "road"@)
    ||| contains(l, "lane"@)
    ||| contains(l, " st "@)
    ||| contains(l, " ct "@)
    ||| contains(l, " dr "@)
    ||| contains(l, " nw"@)
    ||| contains(l, " sw"@)
    ||| contains(l, " ne"@)
    ||| contains(l, " se,"@)
    ||| contains(l, "unit "@)
    ||| contains(l, "suite"@)
}

/// At least two fifths of the bytes of a line are ASCII letters (its
/// length counted as at least 1).
pub open spec fn mostly_letters(line: Seq<char>) -> bool {
    5 * count_alpha(line) >= 2 * (if utf8_len(line) == 0 {
        1
    } else {
        utf8_len(line) as int
    })
}

/// Which lines make the address: every line before the first line that
/// ends the address part, that is a street line, a city line or a line
/// with a street word, and that is mostly letters, is one of the address
/// lines; and every address line is such a line.
pub proof fn lemma_address_lines(lines: Seq<Seq<char>>, k: int)
    requires
        0 <= k < lines.len(),
        forall|j: int| 0 <= j <= k ==> !ends_address_part(#[trigger] lines[j]),
    ensures
        (street_line(lines[k]) || city_line(lines[k]) || street_word_line(lines[k])) && mostly_letters(lines[k])
            ==> bol_lines(lines).contains(lines[k]),
    decreases k,
{
    let rest = lines.subrange(1, lines.len() as int);
    assert(!ends_address_part(lines[0]));
    if k == 0 {
        if (street_line(lines[0]) || city_line(lines[0]) || street_word_line(lines[0])) && mostly_letters(lines[0]) {
            assert(address_line(lines[0]));
            assert((seq![lines[0]] + bol_lines(rest))[0] == lines[0]);
        }
    } else {
        assert forall|j: int| 0 <= j <= k - 1 implies !ends_address_part(#[trigger] rest[j]) by {
            assert(rest[j] == lines[j + 1]);
        }
        lemma_address_lines(rest, k - 1);
        assert(rest[k - 1] == lines[k]);
        if bol_lines(rest).contains(lines[k]) {
            let m = choose|m: int| 0 <= m < bol_lines(rest).len() && bol_lines(rest)[m] == lines[k];
            if address_line(lines[0]) {
                assert((seq![lines[0]] + bol_lines(rest))[m + 1] == lines[k]);
            }
        }
    }
}

/// Every address line is a line before the first line that ends the
/// address part, and is a street line, a city line or a line with a street
/// word, and mostly letters.
pub proof fn lemma_address_lines_only(lines: Seq<Seq<char>>, x: Seq<char>)
    requires
        bol_lines(lines).contains(x),
    ensures
        exists|k: int|
            0 <= k < lines.len() && #[trigger] lines[k] == x && (forall|j: int| 0 <= j <= k ==> !ends_address_part(#[trigger] lines[j]))
                && (street_line(x) || city_line(x) || street_word_line(x)) && mostly_letters(x),
    decreases lines.len(),
{
    let rest = lines.subrange(1, lines.len() as int);
    assert(lines.len() > 0 && !bol_stop(to_upper(lines[0])));
    assert(!ends_address_part(lines[0]));
    if address_line(lines[0]) && x == lines[0] {
        assert(forall|j: int| 0 <= j <= 0 ==> !ends_address_part(#[trigger] lines[j]));
        assert(street_number(x) ==> street_line(x));
        assert(lines[0] == x);
    } else {
        let m = choose|m: int| 0 <= m < bol_lines(lines).len() && bol_lines(lines)[m] == x;
        if address_line(lines[0]) {
            assert(bol_lines(rest)[m - 1] == x);
        } else {
            assert(bol_lines(rest)[m] == x);
        }
        lemma_address_lines_only(rest, x);
        let k = choose|k: int|
            0 <= k < rest.len() && #[trigger] rest[k] == x && (forall|j: int| 0 <= j <= k ==> !ends_address_part(#[trigger] rest[j]))
                && (street_line(x) || city_line(x) || street_word_line(x)) && mostly_letters(x);
        assert(lines[k + 1] == x);
        assert forall|j: int| 0 <= j <= k + 1 implies !ends_address_part(#[trigger] lines[j]) by {
            if j > 0 {
                assert(lines[j] == rest[j - 1]);
            }
        }
    }
}

/// Address lines keep the order of the text: where the first lines hold no
/// line that ends the address part, the address lines of the whole are
/// those of the first lines followed by those of the rest.
pub proof fn lemma_address_lines_in_order(l1: Seq<Seq<char>>, l2: Seq<Seq<char>>)
    requires
        forall|j: int| 0 <= j < l1.len() ==> !ends_address_part(#[trigger] l1[j]),
    ensures
        bol_lines(l1 + l2) == bol_lines(l1) + bol_lines(l2),
    decreases l1.len(),
{
    if l1.len() == 0 {
        assert(l1 + l2 =~= l2);
        assert(Seq::<Seq<char>>::empty() + bol_lines(l2) =~= bol_lines(l2));
    } else {
        let all = l1 + l2;
        let t1 = l1.subrange(1, l1.len() as int);
        assert(all[0] == l1[0]);
        assert(!ends_address_part(l1[0]));
        assert(all.subrange(1, all.len() as int) =~= t1 + l2);
        assert forall|j: int| 0 <= j < t1.len() implies !ends_address_part(#[trigger] t1[j]) by {
            assert(t1[j] == l1[j + 1]);
        }
        lemma_address_lines_in_order(t1, l2);
        if address_line(l1[0]) {
            assert(seq![l1[0]] + (bol_lines(t1) + bol_lines(l2)) =~= (seq![l1[0]] + bol_lines(t1)) + bol_lines(l2));
        }
    }
}

fn bol_stop_exec(u: &[char]) -> (r: bool)
    ensures
        r == bol_stop(u@),
{
    has_lit(u, "TICKETS") || has_lit(u, "HARDWARE") || has_lit(u, "SHIPPING") || has_lit(u, "ADVICE")
        || has_lit(u, "BILL OF LADING") || (has_lit(u, "PRIORITY") && has_lit(u, "TICKET")) || has_lit(
        u,
        "REPORT REF",
    ) || has_lit(u, "RUN DATE")
}

fn address_line_exec(line: &[char]) -> (r: bool)
    ensures
        r == address_line(line@),
{
    let l = lower_chars(line);
    let ind = has_lit(&l, "loop") || has_lit(&l, "street") || has_lit(&l, " ave ") || has_lit(
        &l,
        "blvd",
    ) || has_lit(&l, "drive") || has_lit(&l, "road") || has_lit(&l, "lane") || has_lit(&l, " st ")
        || has_lit(&l, " ct ") || has_lit(&l, " dr ") || has_lit(&l, " nw") || has_lit(&l, " sw")
        || has_lit(&l, " ne") || has_lit(&l, " se,") || has_lit(&l, "unit ") || has_lit(&l, "suite");
    let city = has_lit(&l, ",") && digit_count(line) >= 5 && byte_len(line) >= 10;
    let parts = split_whitespace(line);
    let street = if parts.len() >= 2 {
        assert(parts@[0]@ == views(parts@)[0]);
        assert(parts@[1]@ == views(parts@)[1]);
        byte_len(&parts[0]) <= 6 && is_all_digits(&parts[0]) && parts[1].len() > 0 && char_is_alpha(
            parts[1][0],
        )
    } else {
        false
    };
    (ind || city || street) && !is_garbled(line, 2, 5)
}

/// The delivery address of a bill of lading's text (see `bol_address`).
pub fn extract_bol_address(text: &str) -> (r: Option<String>)
    ensures
        opt_str(r) == bol_address(text@),
{
    let chars = chars_of(text);
    let lines = lines_of(&chars);
    let ghost lv = views(lines@);
    let mut acc: Vec<Vec<char>> = Vec::new();
    let mut i: usize = 0;
    assert(lv.subrange(0, lv.len() as int) == lv);
    assert(views(acc@) + bol_lines(lv) =~= bol_lines(lv));
    while i < lines.len()
        invariant
            i <= lines@.len(),
            lv == views(lines@),
            bol_lines(lv) == views(acc@) + bol_lines(lv.subrange(i as int, lv.len() as int)),
        ensures
            bol_lines(lv) == views(acc@),
        decreases lines@.len() - i,
    {
        let ghost rest = lv.subrange(i as int, lv.len() as int);
        assert(rest[0] == lines@[i as int]@);
        assert(rest.subrange(1, rest.len() as int) == lv.subrange(i + 1, lv.len() as int));
        let u = upper_chars(&lines[i]);
        if bol_stop_exec(&u) {
            assert(bol_lines(rest) == Seq::<Seq<char>>::empty());
            assert(views(acc@) + bol_lines(rest) =~= views(acc@));
            break;
        }
        if address_line_exec(&lines[i]) {
            let ghost before = views(acc@);
            acc.push(copy_range(&lines[i], 0, lines[i].len()));
            assert(lines@[i as int]@.subrange(0, lines@[i as int]@.len() as int) == lines@[i as int]@);
            assert(views(acc@) =~= before.push(lv[i as int]));
            assert(seq![lv[i as int]] + bol_lines(lv.subrange(i + 1, lv.len() as int)) == bol_lines(
                rest,
            ));
            assert(before + bol_lines(rest) =~= views(acc@) + bol_lines(
                lv.subrange(i + 1, lv.len() as int),
            ));
        }
        i = i + 1;
        if i == lines.len() {
            assert(lv.subrange(i as int, lv.len() as int) =~= Seq::<Seq<char>>::empty());
            assert(views(acc@) + Seq::<Seq<char>>::empty() =~= views(acc@));
        }
    }
    if acc.len() == 0 {
        None
    } else {
        let sep = chars_of(", ");
        let joined = join_chars(&acc, &sep);
        Some(string_of(&joined))
    }
}

/// Same as `extract_bol_address`, for callers outside the API layer.
pub fn extract_bol_address_pub(text: &str) -> (r: Option<String>)
    ensures
        opt_str(r) == bol_address(text@),
{
    extract_bol_address(text)
}

} // verus!
