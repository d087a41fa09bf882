use codebar_server::job_files::{is_lading_file, read_job_pdf, reparse_tickets};
use codebar_server::lading::{
    extract_bol_address, extract_bol_address_pub, parse_lading_tickets, parse_lading_tickets_pub,
};

fn row(
    num: &str,
    desc: Option<&str>,
    room: Option<&str>,
    qty: i32,
    section: Option<&str>,
) -> (String, String, String, Option<String>, Option<String>, i32, Option<String>) {
    (
        "job1".to_string(),
        "file1".to_string(),
        num.to_string(),
        desc.map(|s| s.to_string()),
        room.map(|s| s.to_string()),
        qty,
        section.map(|s| s.to_string()),
    )
}

#[test]
fn single_line_ticket_with_room_and_qty() {
    let text = "Page header\nBill of Lading\n123456 Base Cabinet 24in 1012\n";
    let rows = parse_lading_tickets(text, "job1", "file1", "f.pdf");
    assert_eq!(rows, vec![row("123456", Some("Base Cabinet 24in"), Some("101"), 2, Some("Bill of Lading"))]);
}

#[test]
fn multiline_ticket_with_qty_line() {
    let text = "HARDWARE TICKETS\n7654321\nDoor Hinge Set\n4\n";
    let rows = parse_lading_tickets_pub(text, "job1", "file1", "f.pdf");
    assert_eq!(rows, vec![row("7654321", Some("Door Hinge Set"), None, 4, Some("HARDWARE TICKETS"))]);
}

#[test]
fn lines_before_first_section_are_skipped() {
    let text = "123456 Not A Ticket 1012\nSHIPPING\n";
    assert!(parse_lading_tickets(text, "job1", "file1", "f.pdf").is_empty());
}

#[test]
fn duplicate_ticket_keeps_better_entry() {
    let text = "TICKETS\n123456 Base\n123456 Base Cabinet 1012\n";
    let rows = parse_lading_tickets(text, "job1", "file1", "f.pdf");
    assert_eq!(rows, vec![row("123456", Some("Base Cabinet"), Some("101"), 2, Some("TICKETS"))]);
}

#[test]
fn address_lines_are_skipped_as_tickets() {
    let text = "TICKETS\n230 Cynthia Loop NW\n";
    assert!(parse_lading_tickets(text, "job1", "file1", "f.pdf").is_empty());
}

#[test]
fn bol_address_from_lines_before_sections() {
    let text = "ACME Cabinets\n1234 Main Street\nAlbuquerque, NM 87120\nBILL OF LADING\n5678 Elm Street\n";
    assert_eq!(
        extract_bol_address(text),
        Some("1234 Main Street, Albuquerque, NM 87120".to_string())
    );
    assert_eq!(extract_bol_address_pub("no address here\n"), None);
}

#[test]
fn lading_files_by_name() {
    assert!(is_lading_file("BOL_123.pdf"));
    assert!(is_lading_file("Bill-of-Lading.PDF"));
    assert!(!is_lading_file("Invoice.pdf"));
}

#[test]
fn reading_a_lading_pdf() {
    let data = b"BT (TICKETS) Tj ET\nBT (123456 Base Cabinet 1012) Tj ET";
    let r = read_job_pdf(data, "bol.pdf", "job1", "file1");
    assert_eq!(r.extracted_text, Some("TICKETS\n123456 Base Cabinet 1012".to_string()));
    assert_eq!(r.tickets, vec![row("123456", Some("Base Cabinet"), Some("101"), 2, Some("TICKETS"))]);
    assert_eq!(r.address, None);
    let r2 = read_job_pdf(data, "plan.pdf", "job1", "file1");
    assert!(r2.tickets.is_empty());
    let t = reparse_tickets(&r.tickets);
    assert_eq!(t.len(), 1);
    assert_eq!(t[0].ticket_number, "123456");
    assert_eq!(t[0].qty, 2);
}

#[test]
fn nothing_after_a_tickets_line_changes_the_address() {
    let before = "ACME CABINETS\n1234 Desert Loop NW\nAlbuquerque, NM 87120";
    let after = "5678 Other Street\nSanta Fe, NM 87501";
    let text = format!("{}\nTICKETS\n{}", before, after);
    assert_eq!(
        extract_bol_address(&text),
        Some("1234 Desert Loop NW, Albuquerque, NM 87120".to_string())
    );
    assert_eq!(extract_bol_address(&text), extract_bol_address(before));
    let none_before = format!("{}\nTICKETS\n{}", "header only", after);
    assert_eq!(extract_bol_address(&none_before), None);
}
