use codebar_server::cmap::{parse_cmap_hex, parse_tounicode_cmap_u16, split_cmap_hex_tokens};
use codebar_server::pdf_objects::{find_bytes, parse_obj_number_before};
use codebar_server::pdf_text::{
    dec_parse_exec, extract_hex_string, extract_paren_string, extract_pdf_text, extract_pdf_text_pub,
    pdf_text_checked,
};
use std::io::Write;

fn zlib(data: &[u8]) -> Vec<u8> {
    let mut e = flate2::write::ZlibEncoder::new(Vec::new(), flate2::Compression::default());
    e.write_all(data).unwrap();
    e.finish().unwrap()
}

/// A one-page PDF whose font `/F1` (object 3) has a ToUnicode map (object 4).
fn simple_pdf(content: &[u8], cmap: &str, flate: bool) -> Vec<u8> {
    let mut out: Vec<u8> = Vec::new();
    out.extend_from_slice(b"%PDF-1.4\n");
    out.extend_from_slice(
        b"1 0 obj\n<< /Type /Page /Contents 2 0 R /Resources << /Font << /F1 3 0 R >> >> >>\nendobj\n",
    );
    out.extend_from_slice(b"3 0 obj\n<< /Type /Font /ToUnicode 4 0 R >>\nendobj\n");
    out.extend_from_slice(b"4 0 obj\n<< >>\nstream\n");
    out.extend_from_slice(cmap.as_bytes());
    out.extend_from_slice(b"\nendstream\nendobj\n");
    let body = if flate { zlib(content) } else { content.to_vec() };
    if flate {
        out.extend_from_slice(b"2 0 obj\n<< /Filter /FlateDecode >>\nstream\n");
    } else {
        out.extend_from_slice(b"2 0 obj\n<< >>\nstream\n");
    }
    out.extend_from_slice(&body);
    out.extend_from_slice(b"\nendstream\nendobj\n%%EOF\n");
    out
}

const CMAP_A_TO_B: &str = "/CIDInit begincmap\n1 beginbfchar\n<41> <0042>\nendbfchar\nendcmap";

#[test]
fn pdf_text_through_font_cmap() {
    let pdf = simple_pdf(b"BT /F1 12 Tf 100 700 Td (A Hello) Tj ET", CMAP_A_TO_B, false);
    assert_eq!(extract_pdf_text(&pdf, "t.pdf"), Some("B Hello".to_string()));
    assert_eq!(extract_pdf_text_pub(&pdf, "t.pdf"), Some("B Hello".to_string()));
    assert_eq!(extract_pdf_text(&pdf, "other name.pdf"), extract_pdf_text(&pdf, "t.pdf"));
    assert_eq!(extract_pdf_text_pub(&pdf, ""), extract_pdf_text(&pdf, "t.pdf"));
}

#[test]
fn pdf_text_from_flate_stream() {
    let pdf = simple_pdf(b"BT /F1 12 Tf (AAA) Tj ET", CMAP_A_TO_B, true);
    assert_eq!(extract_pdf_text(&pdf, "t.pdf"), Some("BBB".to_string()));
}

#[test]
fn pdf_rows_and_columns() {
    // A drop of more than one unit ends the row; a small move is a column gap.
    let content = b"BT /F1 12 Tf (one) Tj 10 0 Td (two) Tj 0 -14 Td (three) Tj T* (four) Tj ET";
    let pdf = simple_pdf(content, CMAP_A_TO_B, false);
    assert_eq!(extract_pdf_text(&pdf, "t.pdf"), Some("one two\nthree\nfour".to_string()));
}

#[test]
fn pdf_tm_rows() {
    let content = b"BT 1 0 0 1 50 700 Tm (x) Tj 1 0 0 1 90 700.5 Tm (y) Tj 1 0 0 1 50 680 Tm (z) Tj ET";
    let pdf = simple_pdf(content, CMAP_A_TO_B, false);
    assert_eq!(extract_pdf_text(&pdf, "t.pdf"), Some("x y\nz".to_string()));
}

#[test]
fn pdf_hex_strings_two_byte_font() {
    let cmap = "begincmap\n1 beginbfchar\n<0102> <0043>\nendbfchar\nendcmap";
    let pdf = simple_pdf(b"BT /F1 9 Tf <0102> Tj ET", cmap, false);
    assert_eq!(extract_pdf_text(&pdf, "t.pdf"), Some("C".to_string()));
}

#[test]
fn pdf_without_streams_uses_printable_runs() {
    let data = b"Hello there world\x00\x01short\x00<< /Type >>\x00";
    assert_eq!(extract_pdf_text(data, "x.pdf"), Some("Hello there world".to_string()));
}

#[test]
fn pdf_without_text_gives_none() {
    assert_eq!(extract_pdf_text(b"%PDF\x00\x01", "x.pdf"), None);
    assert_eq!(pdf_text_checked(b""), Ok(None));
}

#[test]
fn pdf_whole_file_when_no_streams_but_bt() {
    let data = b"BT (abc) Tj ET";
    assert_eq!(extract_pdf_text(data, "x.pdf"), Some("abc".to_string()));
}

#[test]
fn pdf_reading_that_would_panic_is_refused() {
    // The object number follows a no-break space, two bytes in UTF-8.
    let mut data: Vec<u8> = Vec::new();
    data.extend_from_slice(b"x\xC2\xA012 0 obj\n<< >>\nstream\nBT (a) Tj ET\nendstream\n");
    assert!(pdf_text_checked(&data).is_err());
}

#[test]
fn paren_strings_nest_and_unescape() {
    let chars: Vec<char> = "(Hello (World)) rest".chars().collect();
    let mut i = 0usize;
    let s = extract_paren_string(&chars, &mut i, chars.len());
    assert_eq!(s.iter().collect::<String>(), "Hello (World)");
    assert_eq!(i, 15);
    let chars: Vec<char> = "(a\\nb\\)c)".chars().collect();
    let mut i = 0usize;
    let s = extract_paren_string(&chars, &mut i, chars.len());
    assert_eq!(s, vec!['a', '\n', 'b', ')', 'c']);
    assert_eq!(i, chars.len());
}

#[test]
fn escaped_backslash_does_not_escape_the_next_paren() {
    let chars: Vec<char> = r"(a\\) x)".chars().collect();
    let mut i = 0usize;
    let s = extract_paren_string(&chars, &mut i, chars.len());
    assert_eq!(s, vec!['a', '\\']);
    assert_eq!(i, 5);
    let chars: Vec<char> = r"(a\\\)b) c".chars().collect();
    let mut i = 0usize;
    let s = extract_paren_string(&chars, &mut i, chars.len());
    assert_eq!(s, vec!['a', '\\', ')', 'b']);
    assert_eq!(i, 8);
}

#[test]
fn hex_strings_give_bytes() {
    let chars: Vec<char> = "<48 65 6C> x".chars().collect();
    let mut i = 0usize;
    assert_eq!(extract_hex_string(&chars, &mut i, chars.len()), vec![0x48, 0x65, 0x6C]);
    assert_eq!(i, 10);
    let chars: Vec<char> = "<414>".chars().collect();
    let mut i = 0usize;
    assert_eq!(extract_hex_string(&chars, &mut i, chars.len()), vec![0x41]);
}

#[test]
fn byte_search() {
    assert_eq!(find_bytes(b"hello world", b"wor"), Some(6));
    assert_eq!(find_bytes(b"hello world", b"xyz"), None);
    assert_eq!(find_bytes(b"ab", b"abc"), None);
}

#[test]
fn object_numbers_before_streams() {
    assert_eq!(parse_obj_number_before("stuff\n12 0 obj\n<<"), Some(12));
    assert_eq!(parse_obj_number_before("7 0 obj"), Some(7));
    assert_eq!(parse_obj_number_before("no header here"), None);
    assert_eq!(parse_obj_number_before("x y 0 obj"), None);
}

#[test]
fn decimals_for_positions() {
    let d = dec_parse_exec(&"-1.25".chars().collect::<Vec<_>>()).unwrap();
    assert!(d.neg);
    assert_eq!(d.digits, vec!['1', '2', '5']);
    assert_eq!(d.scale, 2);
    let d = dec_parse_exec(&".5".chars().collect::<Vec<_>>()).unwrap();
    assert!(!d.neg);
    assert_eq!(d.digits, vec!['5']);
    assert_eq!(d.scale, 1);
    let long: Vec<char> = "0.00000000000000000000000000000012".chars().collect();
    let d = dec_parse_exec(&long).unwrap();
    assert_eq!(d.digits.len(), 33);
    assert_eq!(d.scale, 32);
    assert!(dec_parse_exec(&"1.2.3".chars().collect::<Vec<_>>()).is_none());
    assert!(dec_parse_exec(&"-".chars().collect::<Vec<_>>()).is_none());
}

#[test]
fn pdf_long_operands_still_move() {
    let content = b"BT /F1 12 Tf (one) Tj 0.00000000000000000000000001 0 Td (two) Tj \
0 -2.00000000000000000000000001 Td (three) Tj 0 -0.25000000000000000000000001 Td (four) Tj ET";
    let pdf = simple_pdf(content, CMAP_A_TO_B, false);
    assert_eq!(extract_pdf_text(&pdf, "t.pdf"), Some("one two\nthree four".to_string()));
    let content = b"BT 1 0 0 1 50 700.000000000000000000000000 Tm (x) Tj \
1 0 0 1 90 698.5000000000000000000000000001 Tm (y) Tj 1 0 0 1 90 698.00000000000000000000000001 Tm (z) Tj ET";
    let pdf = simple_pdf(content, CMAP_A_TO_B, false);
    assert_eq!(extract_pdf_text(&pdf, "t.pdf"), Some("x\ny z".to_string()));
}

#[test]
fn cmap_tokens_and_hex() {
    assert_eq!(split_cmap_hex_tokens("<0026><0026><0043>"), vec!["<0026>", "<0026>", "<0043>"]);
    assert_eq!(split_cmap_hex_tokens("<20> [<41> <42>]"), vec!["<20>", "[", "<41>", "<42>", "]"]);
    assert_eq!(parse_cmap_hex("<0053>"), Some(0x53));
    assert_eq!(parse_cmap_hex(" <ff> "), Some(255));
    assert_eq!(parse_cmap_hex("<>"), None);
    assert_eq!(parse_cmap_hex("<zz>"), None);
}

#[test]
fn cmap_sections_fill_the_map() {
    let mut map: std::collections::HashMap<u16, char> = std::collections::HashMap::new();
    map.insert(0x7000, 'z');
    let content = "1 beginbfchar\n<0041> <0042>\nendbfchar\n1 beginbfrange\n<0020> <0022> <0061>\nendbfrange\n1 beginbfrange\n<0030> <0031> [<0058> <0059>]\nendbfrange\n";
    let added = parse_tounicode_cmap_u16(content, &mut map);
    assert_eq!(added, 6);
    assert_eq!(map.get(&0x41), Some(&'B'));
    assert_eq!(map.get(&0x20), Some(&'a'));
    assert_eq!(map.get(&0x22), Some(&'c'));
    assert_eq!(map.get(&0x30), Some(&'X'));
    assert_eq!(map.get(&0x31), Some(&'Y'));
    assert_eq!(map.get(&0x23), None);
    assert_eq!(map.get(&0x7000), Some(&'z'));
    assert_eq!(map.len(), 7);
}
