//! The pages of a PDF file, the fonts their resources name, and the
//! character maps of those fonts.

use vstd::prelude::*;
use crate::text::{
    append_chars, chars_eq, chars_of, contains, contains_chars, copy_range, find, find_chars, is_digit, lemma_find_some,
    nat_str, parse_int, parse_int_chars, split_whitespace, split_ws, starts_with,
    starts_with_chars, trim_start, trim_start_chars, u64_chars, views,
};
use crate::cmap::{parse_cmap, read_cmap, state_of, CMapState, Table};
use crate::pdf_objects::{
    StreamV, opt_int, stream_views, ascii_bytes, bfind_from, bytes_range, find_bytes_from, lemma_bfind_from, lit_bytes,
    lossy_chars, u32_max, utf8_lossy,
};

verus! {

// ------------------------------------------------------------------
// Object definitions
// ------------------------------------------------------------------

/// The header `N 0 obj` of object `n`, as bytes.
pub open spec fn obj_header(n: int) -> Seq<u8> {
    ascii_bytes(nat_str(n as nat) + " 0 obj"@)
}

pub open spec fn is_digit_byte(b: u8) -> bool {
    48 <= b <= 57
}

/// The text from the first header `needle` at or after `pos` that does not
/// continue a longer number: up to 1000 bytes.
pub open spec fn find_obj_from(raw: Seq<u8>, needle: Seq<u8>, pos: int) -> Option<Seq<char>>
    decreases raw.len() - pos,
{
    if pos < 0 || pos >= raw.len() || needle.len() == 0 {
        None
    } else {
        proof {
            lemma_bfind_from(raw, needle, pos);
        }
        match bfind_from(raw, needle, pos) {
            None => None,
            Some(a) => if a == 0 || !is_digit_byte(raw[a - 1]) {
                Some(utf8_lossy(raw.subrange(a, if a + 1000 < raw.len() { a + 1000 } else { raw.len() as int })))
            } else {
                find_obj_from(raw, needle, a + needle.len())
            },
        }
    }
}

/// The text of the definition of object `n`.
pub open spec fn obj_text(raw: Seq<u8>, n: int) -> Option<Seq<char>> {
    find_obj_from(raw, obj_header(n), 0)
}

fn ascii_of(cs: &[char]) -> (r: Vec<u8>)
    ensures
        r@ == ascii_bytes(cs@),
{
    let mut r: Vec<u8> = Vec::new();
    let mut k: usize = 0;
    while k < cs.len()
        invariant
            k <= cs@.len(),
            r@ == ascii_bytes(cs@).take(k as int),
        decreases cs@.len() - k,
    {
        r.push(cs[k] as u8);
        k = k + 1;
        assert(r@ =~= ascii_bytes(cs@).take(k as int));
    }
    assert(ascii_bytes(cs@).take(k as int) =~= ascii_bytes(cs@));
    r
}

/// Finds the definition of object `obj_num` and returns its text.
pub fn find_obj_text(raw: &[u8], obj_num: u32) -> (r: Option<Vec<char>>)
    ensures
        match r {
            Some(t) => obj_text(raw@, obj_num as int) == Some(t@),
            None => obj_text(raw@, obj_num as int) is None,
        },
{
    let mut head = u64_chars(obj_num as u64);
    let tail = chars_of(" 0 obj");
    append_chars(&mut head, &tail);
    let needle = ascii_of(&head);
    assert(needle@ == obj_header(obj_num as int));
    if needle.len() == 0 {
        return None;
    }
    let mut pos: usize = 0;
    while pos < raw.len()
        invariant
            pos <= raw@.len(),
            needle@ == obj_header(obj_num as int),
            needle@.len() > 0,
            obj_text(raw@, obj_num as int) == find_obj_from(raw@, needle@, pos as int),
        decreases raw@.len() - pos,
    {
        proof {
            lemma_bfind_from(raw@, needle@, pos as int);
        }
        match find_bytes_from(raw, &needle, pos) {
            None => {
                return None;
            },
            Some(a) => {
                if a == 0 || !(48 <= raw[a - 1] && raw[a - 1] <= 57) {
                    let end: usize = if raw.len() - a > 1000 {
                        a + 1000
                    } else {
                        raw.len()
                    };
                    let bytes = bytes_range(raw, a, end);
                    return Some(lossy_chars(&bytes));
                }
                pos = a + needle.len();
            },
        }
    }
    None
}

// ------------------------------------------------------------------
// References and font dictionaries
// ------------------------------------------------------------------

/// `N 0 R` at the start of the words `toks`: the number `N`.
pub open spec fn ref_triple(toks: Seq<Seq<char>>) -> Option<int> {
    if toks.len() >= 3 && toks[1] == "0"@ && toks[2] == "R"@ {
        parse_int(toks[0], 0, u32_max())
    } else {
        None
    }
}

pub fn is_word(w: &[char], lit: &str) -> (r: bool)
    ensures
        r == (w@ == lit@),
{
    let l = chars_of(lit);
    chars_eq(w, &l)
}

fn parse_u32(w: &[char]) -> (r: Option<u32>)
    ensures
        match r {
            Some(v) => parse_int(w@, 0, u32_max()) == Some(v as int),
            None => parse_int(w@, 0, u32_max()) is None,
        },
{
    match parse_int_chars(w, 0, 0xFFFF_FFFF) {
        Some(v) => Some(v as u32),
        None => None,
    }
}

fn ref_triple_exec(toks: &Vec<Vec<char>>) -> (r: Option<u32>)
    ensures
        match r {
            Some(v) => ref_triple(views(toks@)) == Some(v as int),
            None => ref_triple(views(toks@)) is None,
        },
{
    let ghost tv = views(toks@);
    if toks.len() >= 3 {
        assert(tv[0] == toks@[0]@ && tv[1] == toks@[1]@ && tv[2] == toks@[2]@);
        if is_word(&toks[1], "0") && is_word(&toks[2], "R") {
            return parse_u32(&toks[0]);
        }
    }
    None
}

/// The entries of a font dictionary: font names and object numbers, in
/// the order of the words `/name N 0 R`.
pub type FontDict = Seq<(Seq<char>, int)>;

pub open spec fn fd_view(v: Seq<(Vec<char>, u32)>) -> FontDict {
    v.map_values(|x: (Vec<char>, u32)| (x.0@, x.1 as int))
}

pub open spec fn font_entries(toks: Seq<Seq<char>>, t: int) -> FontDict
    decreases toks.len() - t,
{
    if t < 0 || t + 3 >= toks.len() {
        seq![]
    } else if starts_with(toks[t], "/"@) && toks[t + 2] == "0"@ && toks[t + 3] == "R"@ {
        let rest = font_entries(toks, t + 4);
        match parse_int(toks[t + 1], 0, u32_max()) {
            Some(o) => seq![(toks[t].subrange(1, toks[t].len() as int), o)] + rest,
            None => rest,
        }
    } else {
        font_entries(toks, t + 1)
    }
}

/// The `/Font << ... >>` dictionary in `region`, where `<<` follows
/// `/Font` within 30 characters and names at least one font.
pub open spec fn font_dict(region: Seq<char>) -> Option<FontDict> {
    match find(region, "/Font"@) {
        None => None,
        Some(f) => {
            let after_f = region.subrange(f + 5, region.len() as int);
            match find(after_f, "<<"@) {
                None => None,
                Some(open) => if open >= 30 {
                    None
                } else {
                    let inner = after_f.subrange(open + 2, after_f.len() as int);
                    match find(inner, ">>"@) {
                        None => None,
                        Some(close) => {
                            let fonts = font_entries(split_ws(inner.take(close)), 0);
                            if fonts.len() == 0 {
                                None
                            } else {
                                Some(fonts)
                            }
                        },
                    }
                },
            }
        },
    }
}

proof fn lemma_font_lits()
    ensures
        "/Font"@.len() == 5,
        "<<"@.len() == 2,
        ">>"@.len() == 2,
        "/"@ == seq!['/'],
        "/Contents"@.len() == 9,
        "/Resources"@.len() == 10,
        "/ToUnicode"@.len() == 10,
        "["@ == seq!['['],
{
    reveal_strlit("/Font");
    reveal_strlit("<<");
    reveal_strlit(">>");
    reveal_strlit("/");
    reveal_strlit("/Contents");
    reveal_strlit("/Resources");
    reveal_strlit("/ToUnicode");
    reveal_strlit("[");
}

fn font_entries_exec(toks: &Vec<Vec<char>>) -> (r: Vec<(Vec<char>, u32)>)
    ensures
        fd_view(r@) == font_entries(views(toks@), 0),
{
    let ghost tv = views(toks@);
    let slash = chars_of("/");
    let mut acc: Vec<(Vec<char>, u32)> = Vec::new();
    let mut t: usize = 0;
    while toks.len() > 3 && t < toks.len() - 3
        invariant
            tv == views(toks@),
            slash@ == "/"@,
            t <= toks@.len(),
            font_entries(tv, 0) == fd_view(acc@) + font_entries(tv, t as int),
        decreases toks@.len() - t,
    {
        assert(tv[t as int] == toks@[t as int]@);
        assert(tv[t + 1] == toks@[t + 1]@);
        assert(tv[t + 2] == toks@[t + 2]@);
        assert(tv[t + 3] == toks@[t + 3]@);
        if starts_with_chars(&toks[t], &slash) && is_word(&toks[t + 2], "0") && is_word(
            &toks[t + 3],
            "R",
        ) {
            proof {
                lemma_font_lits();
            }
            match parse_u32(&toks[t + 1]) {
                Some(o) => {
                    let name = copy_range(&toks[t], 1, toks[t].len());
                    let ghost before = fd_view(acc@);
                    let ghost nv = name@;
                    acc.push((name, o));
                    assert(fd_view(acc@) =~= before + seq![(nv, o as int)]);
                },
                None => {},
            }
            t = t + 4;
        } else {
            t = t + 1;
        }
    }
    assert(font_entries(tv, t as int) == Seq::<(Seq<char>, int)>::empty());
    assert(fd_view(acc@) + Seq::<(Seq<char>, int)>::empty() =~= fd_view(acc@));
    acc
}

fn font_dict_exec(region: &[char]) -> (r: Option<Vec<(Vec<char>, u32)>>)
    ensures
        match r {
            Some(v) => font_dict(region@) == Some(fd_view(v@)),
            None => font_dict(region@) is None,
        },
{
    proof {
        lemma_font_lits();
    }
    let pf = chars_of("/Font");
    let po = chars_of("<<");
    let pc = chars_of(">>");
    let f = match find_chars(region, &pf) {
        Some(f) => f,
        None => {
            return None;
        },
    };
    proof {
        lemma_find_some(region@, pf@, 0);
    }
    assert(f + 5 <= region.len());
    let after_f = copy_range(region, f + 5, region.len());
    let open = match find_chars(&after_f, &po) {
        Some(o) => o,
        None => {
            return None;
        },
    };
    if open >= 30 {
        return None;
    }
    proof {
        lemma_find_some(after_f@, po@, 0);
    }
    assert(open + 2 <= after_f.len());
    let inner = copy_range(&after_f, open + 2, after_f.len());
    let close = match find_chars(&inner, &pc) {
        Some(c) => c,
        None => {
            return None;
        },
    };
    proof {
        lemma_find_some(inner@, pc@, 0);
    }
    let body = copy_range(&inner, 0, close);
    assert(body@ == inner@.take(close as int));
    let toks = split_whitespace(&body);
    let fonts = font_entries_exec(&toks);
    if fonts.len() == 0 {
        None
    } else {
        Some(fonts)
    }
}


// ------------------------------------------------------------------
// Pages
// ------------------------------------------------------------------

/// The content stream object of a page: `/Contents N 0 R` or
/// `/Contents [N 0 R]`.
pub open spec fn contents_ref(region: Seq<char>) -> Option<int> {
    match find(region, "/Contents"@) {
        None => None,
        Some(c) => {
            let after_c = trim_start(region.subrange(c + 9, region.len() as int));
            if starts_with(after_c, "["@) {
                let toks = split_ws(after_c.subrange(1, after_c.len() as int));
                if toks.len() >= 3 && toks[1] == "0"@ && (toks[2] == "R"@ || starts_with(toks[2], "R]"@)
                    || starts_with(toks[2], "R\n"@)) {
                    parse_int(toks[0], 0, u32_max())
                } else {
                    None
                }
            } else {
                ref_triple(split_ws(after_c))
            }
        },
    }
}

/// The fonts of a page: from the object that `/Resources N 0 R` refers
/// to, else from the text around the page itself.
pub open spec fn page_fonts_of(raw: Seq<u8>, region: Seq<char>) -> Option<FontDict> {
    let first = match find(region, "/Resources"@) {
        None => None,
        Some(r) => {
            let after_r = trim_start(region.subrange(r + 10, region.len() as int));
            if !starts_with(after_r, "<<"@) {
                match ref_triple(split_ws(after_r)) {
                    Some(res) => match obj_text(raw, res) {
                        Some(t) => font_dict(t),
                        None => None,
                    },
                    None => None,
                }
            } else {
                font_dict(region)
            }
        },
    };
    if first is None {
        font_dict(region)
    } else {
        first
    }
}

pub open spec fn pat_page() -> Seq<u8> {
    ascii_bytes("/Type /Page"@)
}

/// The length of `/Type /Page`.
pub proof fn lemma_page_pat()
    ensures
        pat_page().len() == 11,
{
    reveal_strlit("/Type /Page");
}

/// Past spaces, tabs and line ends.
pub open spec fn skip_blanks(raw: Seq<u8>, k: int) -> int
    decreases raw.len() - k,
{
    if 0 <= k < raw.len() && (raw[k] == 32u8 || raw[k] == 9u8 || raw[k] == 13u8 || raw[k] == 10u8) {
        skip_blanks(raw, k + 1)
    } else {
        k
    }
}

/// The text around a page dictionary at byte `a`: 500 bytes before it to
/// 2000 after.
pub open spec fn page_region(raw: Seq<u8>, a: int) -> Seq<char> {
    utf8_lossy(
        raw.subrange(
            if a > 500 { a - 500 } else { 0 },
            if a + 2000 < raw.len() { a + 2000 } else { raw.len() as int },
        ),
    )
}

/// A page: the object number of its content stream, and its fonts.
pub type PageV = (int, FontDict);

/// The pages from byte `sp` on: each `/Type /Page` (not `/Pages`) with a
/// content stream and fonts.
pub open spec fn scan_pages(raw: Seq<u8>, sp: int) -> Seq<PageV>
    decreases raw.len() - sp,
{
    if sp < 0 || sp >= raw.len() {
        seq![]
    } else {
        proof {
            lemma_bfind_from(raw, pat_page(), sp);
            lemma_page_pat();
        }
        match bfind_from(raw, pat_page(), sp) {
            None => seq![],
            Some(a) => {
                let after = a + 11;
                let k = skip_blanks(raw, after);
                if after < raw.len() && k < raw.len() && raw[k] == 115u8 {
                    scan_pages(raw, after)
                } else {
                    let region = page_region(raw, a);
                    let rest = scan_pages(raw, after);
                    match contents_ref(region) {
                        Some(cn) => match page_fonts_of(raw, region) {
                            Some(fd) => seq![(cn, fd)] + rest,
                            None => rest,
                        },
                        None => rest,
                    }
                }
            },
        }
    }
}

pub open spec fn page_view(p: (u32, Vec<(Vec<char>, u32)>)) -> PageV {
    (p.0 as int, fd_view(p.1@))
}

pub open spec fn pages_view(v: Seq<(u32, Vec<(Vec<char>, u32)>)>) -> Seq<PageV> {
    v.map_values(|p: (u32, Vec<(Vec<char>, u32)>)| page_view(p))
}

fn contents_ref_exec(region: &[char]) -> (r: Option<u32>)
    ensures
        match r {
            Some(v) => contents_ref(region@) == Some(v as int),
            None => contents_ref(region@) is None,
        },
{
    proof {
        lemma_font_lits();
    }
    let pc = chars_of("/Contents");
    let c = match find_chars(region, &pc) {
        Some(c) => c,
        None => {
            return None;
        },
    };
    proof {
        lemma_find_some(region@, pc@, 0);
    }
    assert(c + 9 <= region.len());
    let rest = copy_range(region, c + 9, region.len());
    let after_c = trim_start_chars(&rest);
    let lb = chars_of("[");
    if starts_with_chars(&after_c, &lb) {
        let inner = copy_range(&after_c, 1, after_c.len());
        let toks = split_whitespace(&inner);
        let ghost tv = views(toks@);
        if toks.len() >= 3 {
            assert(tv[0] == toks@[0]@ && tv[1] == toks@[1]@ && tv[2] == toks@[2]@);
            let r1 = chars_of("R]");
            let r2 = chars_of("R\n");
            if is_word(&toks[1], "0") && (is_word(&toks[2], "R") || starts_with_chars(&toks[2], &r1)
                || starts_with_chars(&toks[2], &r2)) {
                return parse_u32(&toks[0]);
            }
        }
        None
    } else {
        let toks = split_whitespace(&after_c);
        ref_triple_exec(&toks)
    }
}

fn page_fonts_exec(raw: &[u8], region: &[char]) -> (r: Option<Vec<(Vec<char>, u32)>>)
    ensures
        match r {
            Some(v) => page_fonts_of(raw@, region@) == Some(fd_view(v@)),
            None => page_fonts_of(raw@, region@) is None,
        },
{
    proof {
        lemma_font_lits();
    }
    let pr = chars_of("/Resources");
    let po = chars_of("<<");
    let mut first: Option<Vec<(Vec<char>, u32)>> = None;
    match find_chars(region, &pr) {
        None => {},
        Some(r) => {
            proof {
                lemma_find_some(region@, pr@, 0);
            }
            assert(r + 10 <= region.len());
            let rest = copy_range(region, r + 10, region.len());
            let after_r = trim_start_chars(&rest);
            if !starts_with_chars(&after_r, &po) {
                let toks = split_whitespace(&after_r);
                match ref_triple_exec(&toks) {
                    Some(res) => match find_obj_text(raw, res) {
                        Some(t) => {
                            first = font_dict_exec(&t);
                        },
                        None => {},
                    },
                    None => {},
                }
            } else {
                first = font_dict_exec(region);
            }
        },
    }
    match first {
        None => font_dict_exec(region),
        Some(v) => Some(v),
    }
}

/// The pages of the file, in the order their dictionaries appear.
pub fn scan_pages_exec(raw: &[u8]) -> (r: Vec<(u32, Vec<(Vec<char>, u32)>)>)
    ensures
        pages_view(r@) == scan_pages(raw@, 0),
{
    let pat = lit_bytes("/Type /Page");
    proof {
        lemma_page_pat();
    }
    let mut acc: Vec<(u32, Vec<(Vec<char>, u32)>)> = Vec::new();
    let mut sp: usize = 0;
    while sp < raw.len()
        invariant
            sp <= raw@.len(),
            pat@ == pat_page(),
            pat@.len() == 11,
            scan_pages(raw@, 0) == pages_view(acc@) + scan_pages(raw@, sp as int),
        ensures
            scan_pages(raw@, 0) == pages_view(acc@),
        decreases raw@.len() - sp,
    {
        proof {
            lemma_bfind_from(raw@, pat@, sp as int);
        }
        match find_bytes_from(raw, &pat, sp) {
            None => {
                assert(pages_view(acc@) + Seq::<PageV>::empty() =~= pages_view(acc@));
                break;
            },
            Some(a) => {
                let after = a + 11;
                let mut k = after;
                while k < raw.len() && (raw[k] == 32u8 || raw[k] == 9u8 || raw[k] == 13u8 || raw[k]
                    == 10u8)
                    invariant
                        after <= k <= raw@.len(),
                        skip_blanks(raw@, after as int) == skip_blanks(raw@, k as int),
                    decreases raw@.len() - k,
                {
                    k = k + 1;
                }
                if after < raw.len() && k < raw.len() && raw[k] == 115u8 {
                    sp = after;
                } else {
                    let lo: usize = if a > 500 {
                        a - 500
                    } else {
                        0
                    };
                    let hi: usize = if raw.len() - a > 2000 {
                        a + 2000
                    } else {
                        raw.len()
                    };
                    let bytes = bytes_range(raw, lo, hi);
                    let region = lossy_chars(&bytes);
                    assert(region@ == page_region(raw@, a as int));
                    match contents_ref_exec(&region) {
                        Some(cn) => match page_fonts_exec(raw, &region) {
                            Some(fd) => {
                                let ghost before = pages_view(acc@);
                                let ghost pv = fd_view(fd@);
                                acc.push((cn, fd));
                                assert(pages_view(acc@) =~= before + seq![(cn as int, pv)]);
                            },
                            None => {},
                        },
                        None => {},
                    }
                    sp = after;
                }
            },
        }
    }
    acc
}


// ------------------------------------------------------------------
// Which pages and fonts count
// ------------------------------------------------------------------

/// A later page has the same content stream as page `i` (and replaces it).
pub open spec fn page_overridden(pl: Seq<PageV>, i: int) -> bool {
    exists|j: int| i < j < pl.len() && pl[j].0 == pl[i].0
}

/// The pages from `i` on that no later page replaces.
pub open spec fn eff_pages(pl: Seq<PageV>, i: int) -> Seq<PageV>
    decreases pl.len() - i,
{
    if i < 0 || i >= pl.len() {
        seq![]
    } else if page_overridden(pl, i) {
        eff_pages(pl, i + 1)
    } else {
        seq![pl[i]] + eff_pages(pl, i + 1)
    }
}

/// A later entry names the same font as entry `i` (and replaces it).
pub open spec fn name_overridden(fd: FontDict, i: int) -> bool {
    exists|j: int| i < j < fd.len() && fd[j].0 == fd[i].0
}

/// The font objects of the entries from `i` on that no later entry replaces.
pub open spec fn eff_values(fd: FontDict, i: int) -> Seq<int>
    decreases fd.len() - i,
{
    if i < 0 || i >= fd.len() {
        seq![]
    } else if name_overridden(fd, i) {
        eff_values(fd, i + 1)
    } else {
        seq![fd[i].1] + eff_values(fd, i + 1)
    }
}

/// The font object that `name` stands for: its last entry.
pub open spec fn fd_get(fd: FontDict, name: Seq<char>) -> Option<int>
    decreases fd.len(),
{
    if fd.len() == 0 {
        None
    } else if fd.last().0 == name {
        Some(fd.last().1)
    } else {
        fd_get(fd.drop_last(), name)
    }
}

/// The font objects of all pages that count.
pub open spec fn font_list(ep: Seq<PageV>) -> Seq<int>
    decreases ep.len(),
{
    if ep.len() == 0 {
        seq![]
    } else {
        font_list(ep.drop_last()) + eff_values(ep.last().1, 0)
    }
}

/// The fonts of the page whose content stream is object `n`.
pub open spec fn page_lookup(ep: Seq<PageV>, n: int) -> Option<FontDict>
    decreases ep.len(),
{
    if ep.len() == 0 {
        None
    } else if ep[0].0 == n {
        Some(ep[0].1)
    } else {
        page_lookup(ep.drop_first(), n)
    }
}

fn copy_fd(fd: &Vec<(Vec<char>, u32)>) -> (r: Vec<(Vec<char>, u32)>)
    ensures
        fd_view(r@) == fd_view(fd@),
{
    let mut r: Vec<(Vec<char>, u32)> = Vec::new();
    let mut k: usize = 0;
    while k < fd.len()
        invariant
            k <= fd@.len(),
            fd_view(r@) == fd_view(fd@).take(k as int),
        decreases fd@.len() - k,
    {
        let name = copy_range(&fd[k].0, 0, fd[k].0.len());
        assert(name@ =~= fd@[k as int].0@);
        let ghost before = fd_view(r@);
        let ghost nv = name@;
        r.push((name, fd[k].1));
        assert(fd_view(r@) =~= before.push((nv, fd@[k as int].1 as int)));
        k = k + 1;
        assert(fd_view(r@) =~= fd_view(fd@).take(k as int));
    }
    assert(fd_view(fd@).take(k as int) =~= fd_view(fd@));
    r
}

fn eff_pages_exec(pl: &Vec<(u32, Vec<(Vec<char>, u32)>)>) -> (r: Vec<(u32, Vec<(Vec<char>, u32)>)>)
    ensures
        pages_view(r@) == eff_pages(pages_view(pl@), 0),
{
    let ghost pv = pages_view(pl@);
    let mut acc: Vec<(u32, Vec<(Vec<char>, u32)>)> = Vec::new();
    let mut i: usize = 0;
    while i < pl.len()
        invariant
            i <= pl@.len(),
            pv == pages_view(pl@),
            eff_pages(pv, 0) == pages_view(acc@) + eff_pages(pv, i as int),
        decreases pl@.len() - i,
    {
        let mut j: usize = i + 1;
        let mut later = false;
        while j < pl.len()
            invariant
                i < pl@.len(),
                i + 1 <= j <= pl@.len(),
                pv == pages_view(pl@),
                later == exists|m: int| i < m < j && pv[m].0 == pv[i as int].0,
            decreases pl@.len() - j,
        {
            assert(pv[j as int].0 == pl@[j as int].0 as int);
            assert(pv[i as int].0 == pl@[i as int].0 as int);
            if pl[j].0 == pl[i].0 {
                later = true;
            }
            j = j + 1;
        }
        assert(later == page_overridden(pv, i as int));
        if !later {
            let ghost before = pages_view(acc@);
            let p = (pl[i].0, copy_fd(&pl[i].1));
            acc.push(p);
            assert(pages_view(acc@) =~= before + seq![pv[i as int]]);
        }
        i = i + 1;
    }
    assert(pages_view(acc@) + Seq::<PageV>::empty() =~= pages_view(acc@));
    acc
}

fn eff_values_exec(fd: &Vec<(Vec<char>, u32)>, out: &mut Vec<u32>)
    ensures
        final(out)@.map_values(|x: u32| x as int) == old(out)@.map_values(|x: u32| x as int)
            + eff_values(fd_view(fd@), 0),
{
    let ghost fv = fd_view(fd@);
    let ghost start = out@.map_values(|x: u32| x as int);
    let mut i: usize = 0;
    while i < fd.len()
        invariant
            i <= fd@.len(),
            fv == fd_view(fd@),
            start + eff_values(fv, 0) == out@.map_values(|x: u32| x as int) + eff_values(fv, i as int),
        decreases fd@.len() - i,
    {
        let mut j: usize = i + 1;
        let mut later = false;
        while j < fd.len()
            invariant
                i < fd@.len(),
                i + 1 <= j <= fd@.len(),
                fv == fd_view(fd@),
                later == exists|m: int| i < m < j && fv[m].0 == fv[i as int].0,
            decreases fd@.len() - j,
        {
            assert(fv[j as int].0 == fd@[j as int].0@);
            assert(fv[i as int].0 == fd@[i as int].0@);
            if chars_eq(&fd[j].0, &fd[i].0) {
                later = true;
            }
            j = j + 1;
        }
        assert(later == name_overridden(fv, i as int));
        if !later {
            let ghost before = out@.map_values(|x: u32| x as int);
            out.push(fd[i].1);
            assert(out@.map_values(|x: u32| x as int) =~= before + seq![fv[i as int].1]);
        }
        i = i + 1;
    }
    assert(out@.map_values(|x: u32| x as int) + Seq::<int>::empty() =~= out@.map_values(
        |x: u32| x as int,
    ));
}

fn font_list_exec(ep: &Vec<(u32, Vec<(Vec<char>, u32)>)>) -> (r: Vec<u32>)
    ensures
        r@.map_values(|x: u32| x as int) == font_list(pages_view(ep@)),
{
    let ghost pv = pages_view(ep@);
    let mut out: Vec<u32> = Vec::new();
    let mut i: usize = 0;
    assert(out@.map_values(|x: u32| x as int) =~= Seq::<int>::empty());
    assert(pv.take(0) =~= Seq::<PageV>::empty());
    while i < ep.len()
        invariant
            i <= ep@.len(),
            pv == pages_view(ep@),
            out@.map_values(|x: u32| x as int) == font_list(pv.take(i as int)),
        decreases ep@.len() - i,
    {
        assert(pv.take(i + 1).drop_last() =~= pv.take(i as int));
        assert(pv.take(i + 1).last() == pv[i as int]);
        eff_values_exec(&ep[i].1, &mut out);
        i = i + 1;
    }
    assert(pv.take(i as int) =~= pv);
    out
}

// ------------------------------------------------------------------
// The fonts' character maps
// ------------------------------------------------------------------

/// The `/ToUnicode N 0 R` reference in the definition of font object `f`.
pub open spec fn tounicode_ref(raw: Seq<u8>, f: int) -> Option<int> {
    match obj_text(raw, f) {
        None => None,
        Some(t) => match find(t, "/ToUnicode"@) {
            None => None,
            Some(p) => ref_triple(split_ws(t.subrange(p + 10, t.len() as int))),
        },
    }
}

/// The text of the last stream of object `n`.
pub open spec fn last_stream(streams: Seq<StreamV>, n: int) -> Option<Seq<char>>
    decreases streams.len(),
{
    if streams.len() == 0 {
        None
    } else if streams.last().1 == Some(n) {
        Some(streams.last().0)
    } else {
        last_stream(streams.drop_last(), n)
    }
}

pub open spec fn empty_table() -> Table {
    Seq::new(0x10000, |i: int| None::<char>)
}

/// Reading the ToUnicode map of font object `f`, where it has one.
#[verifier::opaque]
pub open spec fn font_cmap_state(raw: Seq<u8>, streams: Seq<StreamV>, f: int) -> Option<CMapState> {
    match tounicode_ref(raw, f) {
        None => None,
        Some(t) => match last_stream(streams, t) {
            None => None,
            Some(c) => Some(parse_cmap(c, state_of(empty_table(), 0, false))),
        },
    }
}

/// The character map of font object `f`: its ToUnicode map, where that
/// has at least one entry.
pub open spec fn font_cmap(raw: Seq<u8>, streams: Seq<StreamV>, f: int) -> Option<Table> {
    match font_cmap_state(raw, streams, f) {
        Some(st) => if st.added > 0 {
            Some(st.table)
        } else {
            None
        },
        None => None,
    }
}

pub open spec fn font_overflow(raw: Seq<u8>, streams: Seq<StreamV>, f: int) -> bool {
    match font_cmap_state(raw, streams, f) {
        Some(st) => st.overflow,
        None => false,
    }
}

/// A map with codes above 255 is read two bytes at a time.
pub open spec fn twobyte(t: Table) -> bool {
    exists|k: int| 256 <= k < t.len() && t[k] is Some
}

pub open spec fn table_nonempty(t: Table) -> bool {
    exists|k: int| 0 <= k < t.len() && t[k] is Some
}

/// The map merged from every stream that looks like a CMap, from stream `k`
/// on, and whether one of the readings overflows.
pub open spec fn fallback_run(streams: Seq<StreamV>, k: int, t: Table, ovf: bool) -> (Table, bool)
    decreases streams.len() - k,
{
    if k < 0 || k >= streams.len() {
        (t, ovf)
    } else {
        let c = streams[k].0;
        if contains(c, "beginbfchar"@) || contains(c, "beginbfrange"@) {
            let s2 = parse_cmap(c, state_of(t, 0, false));
            fallback_run(streams, k + 1, s2.table, ovf || s2.overflow)
        } else {
            fallback_run(streams, k + 1, t, ovf)
        }
    }
}

/// Reading the map of one of the first `m` fonts overflows.
pub open spec fn any_overflow(raw: Seq<u8>, streams: Seq<StreamV>, fl: Seq<int>, m: int) -> bool
    decreases m,
{
    if m <= 0 {
        false
    } else {
        any_overflow(raw, streams, fl, m - 1) || font_overflow(raw, streams, fl[m - 1])
    }
}

/// What the text extraction knows of the fonts.
pub struct FontsV {
    pub pages: Seq<PageV>,
    pub fonts: Seq<int>,
    pub per_page: bool,
    pub fallback: Table,
    pub has_fallback: bool,
    pub panics: bool,
}

pub open spec fn fonts_info(raw: Seq<u8>, streams: Seq<StreamV>) -> FontsV {
    let ep = eff_pages(scan_pages(raw, 0), 0);
    let fl = font_list(ep);
    let per_page = exists|m: int| 0 <= m < fl.len() && font_cmap(raw, streams, fl[m]) is Some;
    let fovf = any_overflow(raw, streams, fl, fl.len() as int);
    let fb = if per_page {
        (empty_table(), false)
    } else {
        fallback_run(streams, 0, empty_table(), false)
    };
    FontsV {
        pages: ep,
        fonts: fl,
        per_page,
        fallback: fb.0,
        has_fallback: table_nonempty(fb.0),
        panics: fovf || fb.1,
    }
}

/// The character map that counts for font object `o`.
pub open spec fn per_font(raw: Seq<u8>, streams: Seq<StreamV>, fonts: Seq<int>, o: int) -> Option<Table> {
    if fonts.contains(o) {
        font_cmap(raw, streams, o)
    } else {
        None
    }
}


fn tounicode_exec(raw: &[u8], f: u32) -> (r: Option<u32>)
    ensures
        opt_int(r) == tounicode_ref(raw@, f as int),
{
    proof {
        lemma_font_lits();
    }
    match find_obj_text(raw, f) {
        None => None,
        Some(t) => {
            let pt = chars_of("/ToUnicode");
            match find_chars(&t, &pt) {
                None => None,
                Some(p) => {
                    proof {
                        lemma_find_some(t@, pt@, 0);
                    }
                    assert(p + 10 <= t.len());
                    let rest = copy_range(&t, p + 10, t.len());
                    let toks = split_whitespace(&rest);
                    ref_triple_exec(&toks)
                },
            }
        },
    }
}

fn last_stream_exec(streams: &Vec<(Vec<char>, Option<u32>)>, n: u32) -> (r: Option<usize>)
    ensures
        match r {
            Some(i) => i < streams@.len() && last_stream(stream_views(streams@), n as int) == Some(
                streams@[i as int].0@,
            ),
            None => last_stream(stream_views(streams@), n as int) is None,
        },
{
    let ghost sv = stream_views(streams@);
    let mut k: usize = streams.len();
    assert(sv.take(k as int) =~= sv);
    while k > 0
        invariant
            k <= streams@.len(),
            sv == stream_views(streams@),
            last_stream(sv, n as int) == last_stream(sv.take(k as int), n as int),
        decreases k,
    {
        let ghost tk = sv.take(k as int);
        assert(tk.last() == sv[k - 1]);
        assert(tk.drop_last() =~= sv.take(k - 1));
        assert(sv[k - 1] == (streams@[k - 1].0@, opt_int(streams@[k - 1].1)));
        match streams[k - 1].1 {
            Some(o) => {
                if o == n {
                    return Some(k - 1);
                }
            },
            None => {},
        }
        k = k - 1;
    }
    None
}

fn new_table() -> (t: Vec<Option<char>>)
    ensures
        t@ == empty_table(),
{
    let mut t: Vec<Option<char>> = Vec::new();
    let mut k: usize = 0;
    while k < 0x10000
        invariant
            k <= 0x10000,
            t@ == Seq::new(k as nat, |i: int| None::<char>),
        decreases 0x10000 - k,
    {
        t.push(None);
        k = k + 1;
        assert(t@ =~= Seq::new(k as nat, |i: int| None::<char>));
    }
    t
}

fn table_has_entry(t: &Vec<Option<char>>, lo: usize) -> (r: bool)
    ensures
        r == exists|k: int| lo <= k < t@.len() && t@[k] is Some,
{
    let mut k: usize = lo;
    while k < t.len()
        invariant
            lo <= k,
            forall|m: int| lo <= m < k && m < t@.len() ==> t@[m] is None,
        decreases t@.len() - k,
    {
        if t[k].is_some() {
            return true;
        }
        k = k + 1;
    }
    false
}

fn font_cmap_exec(raw: &[u8], streams: &Vec<(Vec<char>, Option<u32>)>, f: u32) -> (r: (
    Option<Vec<Option<char>>>,
    bool,
))
    ensures
        match r.0 {
            Some(t) => font_cmap(raw@, stream_views(streams@), f as int) == Some(t@) && t@.len() == 0x10000,
            None => font_cmap(raw@, stream_views(streams@), f as int) is None,
        },
        r.1 == font_overflow(raw@, stream_views(streams@), f as int),
{
    reveal(font_cmap_state);
    match tounicode_exec(raw, f) {
        None => (None, false),
        Some(tu) => match last_stream_exec(streams, tu) {
            None => (None, false),
            Some(i) => {
                let mut table = new_table();
                let (added, ovf) = read_cmap(&streams[i].0, &mut table);
                if added > 0 {
                    (Some(table), ovf)
                } else {
                    (None, ovf)
                }
            },
        },
    }
}

/// What the text extraction keeps of the fonts: the pages that count, the
/// character map of each font that has one (and whether it is read two
/// bytes at a time), and the merged map used where no font has one.
pub struct FontCtx {
    pub pages: Vec<(u32, Vec<(Vec<char>, u32)>)>,
    pub cmaps: Vec<(u32, Vec<Option<char>>, bool)>,
    pub per_page: bool,
    pub fallback: Vec<Option<char>>,
    pub has_fallback: bool,
}

pub open spec fn cmaps_ok(
    cm: Seq<(u32, Vec<Option<char>>, bool)>,
    raw: Seq<u8>,
    streams: Seq<StreamV>,
    fl: Seq<int>,
) -> bool {
    &&& forall|e: int|
        0 <= e < cm.len() ==> fl.contains(cm[e].0 as int) && font_cmap(raw, streams, cm[e].0 as int)
            == Some(cm[e].1@) && cm[e].2 == twobyte(cm[e].1@) && cm[e].1@.len() == 0x10000
    &&& forall|m: int|
        0 <= m < fl.len() && font_cmap(raw, streams, fl[m]) is Some ==> exists|e: int|
            0 <= e < cm.len() && cm[e].0 as int == fl[m]
}

pub open spec fn ctx_ok(ctx: FontCtx, raw: Seq<u8>, streams: Seq<StreamV>) -> bool {
    let info = fonts_info(raw, streams);
    &&& pages_view(ctx.pages@) == info.pages
    &&& cmaps_ok(ctx.cmaps@, raw, streams, info.fonts)
    &&& ctx.per_page == info.per_page
    &&& ctx.fallback@ == info.fallback
    &&& ctx.has_fallback == info.has_fallback
    &&& ctx.fallback@.len() == 0x10000
}

pub open spec fn entries_ok(
    cm: Seq<(u32, Vec<Option<char>>, bool)>,
    raw: Seq<u8>,
    sv: Seq<StreamV>,
    flv: Seq<int>,
    m: int,
) -> bool {
    forall|e: int|
        #![trigger cm[e]]
        0 <= e < cm.len() ==> (exists|m2: int| 0 <= m2 < m && flv[m2] == cm[e].0 as int) && font_cmap(
            raw,
            sv,
            cm[e].0 as int,
        ) == Some(cm[e].1@) && cm[e].2 == twobyte(cm[e].1@) && cm[e].1@.len() == 0x10000
}

pub open spec fn covered(
    cm: Seq<(u32, Vec<Option<char>>, bool)>,
    raw: Seq<u8>,
    sv: Seq<StreamV>,
    flv: Seq<int>,
    m: int,
) -> bool {
    forall|m2: int|
        #![trigger flv[m2]]
        0 <= m2 < m && font_cmap(raw, sv, flv[m2]) is Some ==> exists|e: int|
            0 <= e < cm.len() && cm[e].0 as int == flv[m2]
}

proof fn lemma_push_entry(
    old_cm: Seq<(u32, Vec<Option<char>>, bool)>,
    cm: Seq<(u32, Vec<Option<char>>, bool)>,
    raw: Seq<u8>,
    sv: Seq<StreamV>,
    flv: Seq<int>,
    m: int,
)
    requires
        0 <= m < flv.len(),
        entries_ok(old_cm, raw, sv, flv, m),
        covered(old_cm, raw, sv, flv, m),
        cm.len() == old_cm.len() + 1,
        forall|e: int| 0 <= e < old_cm.len() ==> cm[e] == old_cm[e],
        cm.last().0 as int == flv[m],
        font_cmap(raw, sv, flv[m]) == Some(cm.last().1@),
        cm.last().2 == twobyte(cm.last().1@),
        cm.last().1@.len() == 0x10000,
    ensures
        entries_ok(cm, raw, sv, flv, m + 1),
        covered(cm, raw, sv, flv, m + 1),
{
    assert forall|e: int| #![trigger cm[e]] 0 <= e < cm.len() implies (exists|m2: int|
        0 <= m2 < m + 1 && flv[m2] == cm[e].0 as int) && font_cmap(raw, sv, cm[e].0 as int) == Some(
        cm[e].1@,
    ) && cm[e].2 == twobyte(cm[e].1@) && cm[e].1@.len() == 0x10000 by {
        if e < old_cm.len() {
            assert(cm[e] == old_cm[e]);
            let m2 = choose|m2: int| 0 <= m2 < m && flv[m2] == old_cm[e].0 as int;
            assert(0 <= m2 < m + 1 && flv[m2] == cm[e].0 as int);
        } else {
            assert(flv[m] == cm[e].0 as int);
        }
    }
    assert forall|m2: int| #![trigger flv[m2]]
        0 <= m2 < m + 1 && font_cmap(raw, sv, flv[m2]) is Some implies exists|e: int|
        0 <= e < cm.len() && cm[e].0 as int == flv[m2] by {
        if m2 < m {
            let e = choose|e: int| 0 <= e < old_cm.len() && old_cm[e].0 as int == flv[m2];
            assert(cm[e] == old_cm[e]);
        } else {
            assert(cm[old_cm.len() as int].0 as int == flv[m2]);
        }
    }
}

proof fn lemma_skip_entry(
    cm: Seq<(u32, Vec<Option<char>>, bool)>,
    raw: Seq<u8>,
    sv: Seq<StreamV>,
    flv: Seq<int>,
    m: int,
)
    requires
        0 <= m < flv.len(),
        entries_ok(cm, raw, sv, flv, m),
        covered(cm, raw, sv, flv, m),
        font_cmap(raw, sv, flv[m]) is None,
    ensures
        entries_ok(cm, raw, sv, flv, m + 1),
        covered(cm, raw, sv, flv, m + 1),
{
    assert forall|e: int| #![trigger cm[e]] 0 <= e < cm.len() implies (exists|m2: int|
        0 <= m2 < m + 1 && flv[m2] == cm[e].0 as int) by {
        let m2 = choose|m2: int| 0 <= m2 < m && flv[m2] == cm[e].0 as int;
        assert(0 <= m2 < m + 1 && flv[m2] == cm[e].0 as int);
    }
}

/// Gathers the pages, the fonts and their character maps; says too whether
/// reading one of the maps overflows.
pub fn build_fonts(raw: &[u8], streams: &Vec<(Vec<char>, Option<u32>)>) -> (r: (FontCtx, bool))
    ensures
        ctx_ok(r.0, raw@, stream_views(streams@)),
        r.1 == fonts_info(raw@, stream_views(streams@)).panics,
{
    let ghost sv = stream_views(streams@);
    let all_pages = scan_pages_exec(raw);
    let pages = eff_pages_exec(&all_pages);
    let fl = font_list_exec(&pages);
    let ghost flv = fl@.map_values(|x: u32| x as int);
    let mut cm: Vec<(u32, Vec<Option<char>>, bool)> = Vec::new();
    let mut fovf = false;
    let mut m: usize = 0;
    while m < fl.len()
        invariant
            m <= fl@.len(),
            flv == fl@.map_values(|x: u32| x as int),
            sv == stream_views(streams@),
            entries_ok(cm@, raw@, sv, flv, m as int),
            covered(cm@, raw@, sv, flv, m as int),
            fovf == any_overflow(raw@, sv, flv, m as int),
        decreases fl@.len() - m,
    {
        let f = fl[m];
        assert(flv[m as int] == f as int);
        let (c, ovf) = font_cmap_exec(raw, streams, f);
        fovf = fovf || ovf;
        let ghost old_cm = cm@;
        match c {
            Some(t) => {
                let tb = table_has_entry(&t, 256);
                cm.push((f, t, tb));
                proof {
                    lemma_push_entry(old_cm, cm@, raw@, sv, flv, m as int);
                }
            },
            None => {
                proof {
                    lemma_skip_entry(cm@, raw@, sv, flv, m as int);
                }
            },
        }
        m = m + 1;
    }
    let per_page = cm.len() > 0;
    proof {
        assert(flv == fonts_info(raw@, sv).fonts);
        if per_page {
            let m2 = choose|m2: int| 0 <= m2 < fl@.len() && flv[m2] == cm@[0].0 as int;
            assert(font_cmap(raw@, sv, flv[m2]) is Some);
        } else {
            assert forall|m2: int| 0 <= m2 < flv.len() implies !(font_cmap(raw@, sv, flv[m2]) is Some) by {
                if font_cmap(raw@, sv, flv[m2]) is Some {
                    let e = choose|e: int| 0 <= e < cm@.len() && cm@[e].0 as int == flv[m2];
                }
            }
        }
        assert forall|e: int| #![trigger cm@[e]] 0 <= e < cm@.len() implies flv.contains(cm@[e].0 as int) by {
            let m2 = choose|m2: int| 0 <= m2 < m && flv[m2] == cm@[e].0 as int;
        }
    }
    let mut fallback = new_table();
    let mut fb_ovf = false;
    if !per_page {
        let b1 = chars_of("beginbfchar");
        let b2 = chars_of("beginbfrange");
        let mut k: usize = 0;
        while k < streams.len()
            invariant
                k <= streams@.len(),
                sv == stream_views(streams@),
                fallback@.len() == 0x10000,
                b1@ == "beginbfchar"@,
                b2@ == "beginbfrange"@,
                fallback_run(sv, 0, empty_table(), false) == fallback_run(sv, k as int, fallback@, fb_ovf),
            decreases streams@.len() - k,
        {
            assert(sv[k as int].0 == streams@[k as int].0@);
            if contains_chars(&streams[k].0, &b1) || contains_chars(&streams[k].0, &b2) {
                let (_, o) = read_cmap(&streams[k].0, &mut fallback);
                fb_ovf = fb_ovf || o;
            }
            k = k + 1;
        }
    }
    let has_fallback = table_has_entry(&fallback, 0);
    (FontCtx { pages, cmaps: cm, per_page, fallback, has_fallback }, fovf || fb_ovf)
}

} // verus!
