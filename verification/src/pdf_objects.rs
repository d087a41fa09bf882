//! The object layer of a PDF file: byte search, its streams and the
//! numbers of their objects, its pages and their fonts, and the fonts'
//! character maps.

use vstd::prelude::*;
use crate::text::{chars_of, contains, contains_chars, is_ws, parse_int, parse_int_chars, rfind, rfind_chars, trim, trim_chars, char_is_ws, copy_range};

verus! {

// ------------------------------------------------------------------
// Byte search
// ------------------------------------------------------------------

pub open spec fn bmatch_at(s: Seq<u8>, pat: Seq<u8>, i: int) -> bool {
    0 <= i && i + pat.len() <= s.len() && s.subrange(i, i + pat.len()) == pat
}

/// The first index at or after `i` where `pat` occurs in `s`.
pub open spec fn bfind_from(s: Seq<u8>, pat: Seq<u8>, i: int) -> Option<int>
    decreases s.len() + 1 - i,
{
    if i < 0 || i + pat.len() > s.len() {
        None
    } else if bmatch_at(s, pat, i) {
        Some(i)
    } else {
        bfind_from(s, pat, i + 1)
    }
}

/// A match found from `i` lies at or after `i`, within `s`.
pub proof fn lemma_bfind_from(s: Seq<u8>, pat: Seq<u8>, i: int)
    ensures
        bfind_from(s, pat, i) matches Some(k) ==> i <= k && k + pat.len() <= s.len() && bmatch_at(
            s,
            pat,
            k,
        ),
    decreases s.len() + 1 - i,
{
    if !(i < 0 || i + pat.len() > s.len()) && !bmatch_at(s, pat, i) {
        lemma_bfind_from(s, pat, i + 1);
    }
}

proof fn lemma_bfind_skip(s: Seq<u8>, pat: Seq<u8>, i: int, k: int)
    requires
        0 <= i <= k,
        forall|j: int| i <= j < k ==> !bmatch_at(s, pat, j),
    ensures
        bfind_from(s, pat, i) == bfind_from(s, pat, k),
    decreases k - i,
{
    if i < k {
        lemma_bfind_skip(s, pat, i + 1, k);
    }
}

fn bytes_match_at(s: &[u8], pat: &[u8], i: usize) -> (r: bool)
    ensures
        r == bmatch_at(s@, pat@, i as int),
{
    if pat.len() > s.len() || i > s.len() - pat.len() {
        return false;
    }
    let mut k: usize = 0;
    while k < pat.len()
        invariant
            k <= pat@.len(),
            i + pat@.len() <= s@.len(),
            forall|m: int| 0 <= m < k ==> s@[i + m] == pat@[m],
        decreases pat@.len() - k,
    {
        assert(i + k < s.len());
        if s[i + k] != pat[k] {
            assert(s@.subrange(i as int, i + pat@.len())[k as int] != pat@[k as int]);
            return false;
        }
        k = k + 1;
    }
    assert(s@.subrange(i as int, i + pat@.len()) =~= pat@);
    true
}

/// The first place at or after `from` where `pat` occurs in `s`.
pub fn find_bytes_from(s: &[u8], pat: &[u8], from: usize) -> (r: Option<usize>)
    ensures
        r matches Some(k) ==> bfind_from(s@, pat@, from as int) == Some(k as int),
        r is None ==> bfind_from(s@, pat@, from as int) is None,
{
    if pat.len() > s.len() {
        return None;
    }
    let last = s.len() - pat.len();
    if from > last {
        return None;
    }
    let mut i = from;
    loop
        invariant
            from <= i <= last,
            last + pat@.len() == s@.len(),
            forall|j: int| from <= j < i ==> !bmatch_at(s@, pat@, j),
        decreases last - i,
    {
        if bytes_match_at(s, pat, i) {
            proof {
                lemma_bfind_skip(s@, pat@, from as int, i as int);
            }
            return Some(i);
        }
        if i == last {
            proof {
                lemma_bfind_skip(s@, pat@, from as int, i + 1);
            }
            return None;
        }
        i = i + 1;
    }
}

/// Finds the first place where `needle` occurs in `haystack`.
pub fn find_bytes(haystack: &[u8], needle: &[u8]) -> (r: Option<usize>)
    requires
        needle@.len() > 0,
    ensures
        r matches Some(k) ==> bfind_from(haystack@, needle@, 0) == Some(k as int),
        r is None ==> bfind_from(haystack@, needle@, 0) is None,
{
    find_bytes_from(haystack, needle, 0)
}

/// A copy of `s[lo..hi]`.
pub fn bytes_range(s: &[u8], lo: usize, hi: usize) -> (r: Vec<u8>)
    requires
        lo <= hi <= s@.len(),
    ensures
        r@ == s@.subrange(lo as int, hi as int),
{
    let mut r: Vec<u8> = Vec::new();
    let mut k: usize = lo;
    while k < hi
        invariant
            lo <= k <= hi <= s@.len(),
            r@ == s@.subrange(lo as int, k as int),
        decreases hi - k,
    {
        r.push(s[k]);
        k = k + 1;
        assert(r@ =~= s@.subrange(lo as int, k as int));
    }
    r
}

/// The bytes of an ASCII text.
pub open spec fn ascii_bytes(s: Seq<char>) -> Seq<u8> {
    s.map_values(|c: char| c as u8)
}

pub fn lit_bytes(s: &str) -> (r: Vec<u8>)
    ensures
        r@ == ascii_bytes(s@),
{
    let cs = chars_of(s);
    let mut r: Vec<u8> = Vec::new();
    let mut k: usize = 0;
    while k < cs.len()
        invariant
            k <= cs@.len(),
            cs@ == s@,
            r@ == ascii_bytes(s@).take(k as int),
        decreases cs@.len() - k,
    {
        r.push(cs[k] as u8);
        k = k + 1;
        assert(r@ =~= ascii_bytes(s@).take(k as int));
    }
    assert(ascii_bytes(s@).take(k as int) =~= ascii_bytes(s@));
    r
}

// ------------------------------------------------------------------
// Decoding bytes
// ------------------------------------------------------------------

/// What `String::from_utf8_lossy` makes of the bytes `b`.
pub uninterp spec fn utf8_lossy(b: Seq<u8>) -> Seq<char>;

/// `String::from_utf8_lossy`: the characters that `b` encodes in UTF-8,
/// each invalid sequence replaced by U+FFFD; on valid UTF-8, exactly the
/// decoded characters.
#[verifier::external_body]
pub(crate) fn lossy_chars(b: &[u8]) -> (r: Vec<char>)
    ensures
        r@ == utf8_lossy(b@),
        vstd::utf8::valid_utf8(b@) ==> r@ == vstd::utf8::decode_utf8(b@),
{
    String::from_utf8_lossy(b).chars().collect()
}

/// What a zlib decoder read to its end makes of `data`: the decompressed
/// bytes, or `None` where reading fails.
pub uninterp spec fn zlib_inflate(data: Seq<u8>) -> Option<Seq<u8>>;

/// `flate2::read::ZlibDecoder` over `data`, read to its end with
/// `Read::read_to_end`: the bytes it gives, or `None` where it fails.
/// Nothing is said of which inputs are valid zlib streams.
#[verifier::external_body]
fn inflate(data: &[u8]) -> (r: Option<Vec<u8>>)
    ensures
        r matches Some(v) ==> zlib_inflate(data@) == Some(v@),
        r is None ==> zlib_inflate(data@) is None,
{
    let mut decoder = flate2::read::ZlibDecoder::new(data);
    let mut out: Vec<u8> = Vec::new();
    match std::io::Read::read_to_end(&mut decoder, &mut out) {
        Ok(_) => Some(out),
        Err(_) => None,
    }
}


// ------------------------------------------------------------------
// Object numbers
// ------------------------------------------------------------------

pub open spec fn u32_max() -> int {
    0xFFFF_FFFF
}

pub open spec fn opt_int(o: Option<u32>) -> Option<int> {
    match o {
        Some(v) => Some(v as int),
        None => None,
    }
}

/// The last index below `k` that holds whitespace.
pub open spec fn last_ws(s: Seq<char>, k: int) -> Option<int>
    decreases k,
{
    if k <= 0 {
        None
    } else if is_ws(s[k - 1]) {
        Some(k - 1)
    } else {
        last_ws(s, k - 1)
    }
}

/// The object number in `N 0 obj`, the last such header in `dict`.
pub open spec fn obj_number(dict: Seq<char>) -> Option<int> {
    match rfind(dict, " 0 obj"@) {
        None => None,
        Some(p) => {
            let before = dict.take(p);
            match last_ws(before, p) {
                Some(k) => parse_int(trim(before.subrange(k + 1, p)), 0, u32_max()),
                None => parse_int(trim(before), 0, u32_max()),
            }
        },
    }
}

/// Reading the number slices the text one byte past the whitespace before
/// it; where that whitespace takes more than one byte, the slice panics.
pub open spec fn obj_number_panics(dict: Seq<char>) -> bool {
    match rfind(dict, " 0 obj"@) {
        None => false,
        Some(p) => match last_ws(dict.take(p), p) {
            Some(k) => dict[k] as u32 >= 0x80,
            None => false,
        },
    }
}

/// The object number before a stream, and whether reading it panics.
pub fn obj_number_of(dict: &[char]) -> (r: (Option<u32>, bool))
    ensures
        opt_int(r.0) == obj_number(dict@),
        r.1 == obj_number_panics(dict@),
{
    let pat = chars_of(" 0 obj");
    match rfind_chars(dict, &pat) {
        None => (None, false),
        Some(p) => {
            proof {
                crate::text::lemma_rfind_some(dict@, pat@);
            }
            let ghost before = dict@.take(p as int);
            let mut k: usize = p;
            while k > 0 && !char_is_ws(dict[k - 1])
                invariant
                    k <= p <= dict@.len(),
                    before == dict@.take(p as int),
                    last_ws(before, p as int) == last_ws(before, k as int),
                decreases k,
            {
                assert(before[k - 1] == dict@[k - 1]);
                k = k - 1;
            }
            if k > 0 {
                assert(before[k - 1] == dict@[k - 1]);
                assert(last_ws(before, k as int) == Some(k - 1));
                let num = copy_range(dict, k, p);
                assert(num@ == before.subrange(k as int, p as int));
                let t = trim_chars(&num);
                let v = parse_int_chars(&t, 0, 0xFFFF_FFFF);
                let panics = dict[k - 1] as u32 >= 0x80;
                match v {
                    Some(x) => (Some(x as u32), panics),
                    None => (None, panics),
                }
            } else {
                let num = copy_range(dict, 0, p);
                assert(num@ == before);
                let t = trim_chars(&num);
                let v = parse_int_chars(&t, 0, 0xFFFF_FFFF);
                match v {
                    Some(x) => (Some(x as u32), false),
                    None => (None, false),
                }
            }
        },
    }
}

/// Finds the object number from the text before a stream: the `N` of the
/// last `N 0 obj` header.
pub fn parse_obj_number_before(dict_str: &str) -> (r: Option<u32>)
    requires
        !obj_number_panics(dict_str@),
    ensures
        opt_int(r) == obj_number(dict_str@),
{
    let cs = chars_of(dict_str);
    obj_number_of(&cs).0
}


// ------------------------------------------------------------------
// Streams
// ------------------------------------------------------------------

pub open spec fn pat_stream() -> Seq<u8> {
    ascii_bytes("stream"@)
}

pub open spec fn pat_endstream() -> Seq<u8> {
    ascii_bytes("endstream"@)
}

/// The lengths of `stream` and `endstream`.
pub proof fn lemma_stream_pats()
    ensures
        pat_stream().len() == 6,
        pat_endstream().len() == 9,
{
    reveal_strlit("stream");
    reveal_strlit("endstream");
}

/// A decoded stream and the number of the object it belongs to.
pub type StreamV = (Seq<char>, Option<int>);

pub open spec fn stream_views(v: Seq<(Vec<char>, Option<u32>)>) -> Seq<StreamV> {
    v.map_values(|x: (Vec<char>, Option<u32>)| (x.0@, opt_int(x.1)))
}

/// The text before a stream that its dictionary is looked for in: up to
/// 2048 bytes.
pub open spec fn stream_dict(raw: Seq<u8>, abs: int) -> Seq<char> {
    utf8_lossy(raw.subrange(if abs > 2048 { abs - 2048 } else { 0 }, abs))
}

/// The text of the stream data `raw[start..end]`: inflated where its
/// dictionary names `/FlateDecode` (or anything starting `/Fl`), `None`
/// where that fails.
pub open spec fn stream_text(raw: Seq<u8>, abs: int, start: int, end: int) -> Option<Seq<char>> {
    let dict = stream_dict(raw, abs);
    let data = raw.subrange(start, end);
    if contains(dict, "/FlateDecode"@) || contains(dict, "/Fl"@) {
        match zlib_inflate(data) {
            Some(d) => Some(utf8_lossy(d)),
            None => None,
        }
    } else {
        Some(utf8_lossy(data))
    }
}

/// Past a `\r`, then past a `\n`.
pub open spec fn skip_eol(raw: Seq<u8>, s1: int) -> int {
    let s2 = if 0 <= s1 < raw.len() && raw[s1] == 13u8 {
        s1 + 1
    } else {
        s1
    };
    if 0 <= s2 < raw.len() && raw[s2] == 10u8 {
        s2 + 1
    } else {
        s2
    }
}

/// The streams of the file from byte `pos` on, and whether reading the
/// object number of one of them panics.  A `stream` keyword right after a
/// `d` (the end of `endstream`) is skipped.
pub open spec fn scan_streams(raw: Seq<u8>, pos: int) -> (Seq<StreamV>, bool)
    decreases raw.len() - pos,
{
    if pos < 0 || pos >= raw.len() {
        (seq![], false)
    } else {
        proof {
            lemma_bfind_from(raw, pat_stream(), pos);
            lemma_stream_pats();
        }
        match bfind_from(raw, pat_stream(), pos) {
            None => (seq![], false),
            Some(abs) => if abs > 0 && raw[abs - 1] == 100u8 {
                scan_streams(raw, abs + pat_stream().len())
            } else {
                let start = skip_eol(raw, abs + pat_stream().len());
                proof {
                    lemma_bfind_from(raw, pat_endstream(), start);
                }
                match bfind_from(raw, pat_endstream(), start) {
                    Some(end) => {
                        let dict = stream_dict(raw, abs);
                        let rest = scan_streams(raw, end + pat_endstream().len());
                        let here: Seq<StreamV> = match stream_text(raw, abs, start, end) {
                            Some(t) => seq![(t, obj_number(dict))],
                            None => seq![],
                        };
                        (here + rest.0, obj_number_panics(dict) || rest.1)
                    },
                    None => scan_streams(raw, abs + pat_stream().len()),
                }
            },
        }
    }
}

/// The streams of the file; where there are none, the whole file read as
/// text if it holds `BT`.
pub open spec fn pdf_streams(raw: Seq<u8>) -> (Seq<StreamV>, bool) {
    let sc = scan_streams(raw, 0);
    if sc.0.len() == 0 && contains(utf8_lossy(raw), "BT"@) {
        (seq![(utf8_lossy(raw), None)], sc.1)
    } else {
        sc
    }
}

fn stream_entry(raw: &[u8], abs: usize, start: usize, end: usize) -> (r: (Option<Vec<char>>, Option<u32>, bool))
    requires
        abs <= start <= end <= raw@.len(),
    ensures
        match r.0 {
            Some(t) => stream_text(raw@, abs as int, start as int, end as int) == Some(t@),
            None => stream_text(raw@, abs as int, start as int, end as int) is None,
        },
        opt_int(r.1) == obj_number(stream_dict(raw@, abs as int)),
        r.2 == obj_number_panics(stream_dict(raw@, abs as int)),
{
    let ds: usize = if abs > 2048 {
        abs - 2048
    } else {
        0
    };
    let dict_bytes = bytes_range(raw, ds, abs);
    let dict = lossy_chars(&dict_bytes);
    let p1 = chars_of("/FlateDecode");
    let p2 = chars_of("/Fl");
    let is_flate = contains_chars(&dict, &p1) || contains_chars(&dict, &p2);
    let (obj, panics) = obj_number_of(&dict);
    let data = bytes_range(raw, start, end);
    let text = if is_flate {
        match inflate(&data) {
            Some(d) => Some(lossy_chars(&d)),
            None => None,
        }
    } else {
        Some(lossy_chars(&data))
    };
    (text, obj, panics)
}

/// The streams of the file, decoded, with their object numbers, and whether
/// reading an object number panics.
pub fn index_streams(raw: &[u8]) -> (r: (Vec<(Vec<char>, Option<u32>)>, bool))
    ensures
        (stream_views(r.0@), r.1) == pdf_streams(raw@),
{
    let pat = lit_bytes("stream");
    let endpat = lit_bytes("endstream");
    proof {
        lemma_stream_pats();
    }
    assert(pat@.len() == 6);
    assert(endpat@.len() == 9);
    let mut acc: Vec<(Vec<char>, Option<u32>)> = Vec::new();
    let mut panics = false;
    let mut pos: usize = 0;
    while pos < raw.len()
        invariant
            pos <= raw@.len(),
            pat@ == pat_stream(),
            endpat@ == pat_endstream(),
            pat@.len() == 6,
            endpat@.len() == 9,
            scan_streams(raw@, 0) == (stream_views(acc@) + scan_streams(raw@, pos as int).0, panics
                || scan_streams(raw@, pos as int).1),
        ensures
            scan_streams(raw@, 0) == (stream_views(acc@), panics),
        decreases raw@.len() - pos,
    {
        proof {
            lemma_bfind_from(raw@, pat@, pos as int);
        }
        match find_bytes_from(raw, &pat, pos) {
            None => {
                assert(stream_views(acc@) + Seq::<StreamV>::empty() =~= stream_views(acc@));
                break;
            },
            Some(abs) => {
                if abs > 0 && raw[abs - 1] == 100u8 {
                    pos = abs + 6;
                } else {
                    let mut start = abs + 6;
                    if start < raw.len() && raw[start] == 13u8 {
                        start = start + 1;
                    }
                    if start < raw.len() && raw[start] == 10u8 {
                        start = start + 1;
                    }
                    assert(start == skip_eol(raw@, abs + 6));
                    proof {
                        lemma_bfind_from(raw@, endpat@, start as int);
                    }
                    match find_bytes_from(raw, &endpat, start) {
                        Some(end) => {
                            let (text, obj, p) = stream_entry(raw, abs, start, end);
                            let ghost before = stream_views(acc@);
                            match text {
                                Some(t) => {
                                    let ghost tv = t@;
                                    acc.push((t, obj));
                                    assert(stream_views(acc@) =~= before + seq![(tv, opt_int(obj))]);
                                },
                                None => {},
                            }
                            panics = panics || p;
                            pos = end + 9;
                        },
                        None => {
                            pos = abs + 6;
                        },
                    }
                }
            },
        }
    }
    if acc.len() == 0 {
        let whole = lossy_chars(raw);
        let bt = chars_of("BT");
        if contains_chars(&whole, &bt) {
            let ghost wv = whole@;
            acc.push((whole, None));
            assert(stream_views(acc@) =~= seq![(wv, None::<int>)]);
        }
    }
    (acc, panics)
}

} // verus!
