//! Files uploaded for a job: what is read from a PDF when it is stored or
//! read again.

use vstd::prelude::*;
use crate::api::ReparseTicket;
use crate::lading::{TicketRow, bol_address, extract_bol_address, lading_tickets, opt_str, parse_lading_tickets, row_is};
use crate::pdf_text::{extract_pdf_text, pdf_panics, pdf_text, pdf_text_checked, UnreadablePdf};
use crate::text::{chars_of, contains, has_lit, lower_chars, to_lower, string_of};

verus! {

/// A file is a bill of lading where its name, in lower case, holds
/// `lading` or `bol`.
pub open spec fn lading_name(file_name: Seq<char>) -> bool {
    contains(to_lower(file_name), "lading"@) || contains(to_lower(file_name), "bol"@)
}

/// Whether the file is a bill of lading, by its name.
pub fn is_lading_file(file_name: &str) -> (r: bool)
    ensures
        r == lading_name(file_name@),
{
    let lower = lower_chars(&chars_of(file_name));
    has_lit(&lower, "lading") || has_lit(&lower, "bol")
}

/// What is read from an uploaded PDF: its text, and for a bill of lading
/// its tickets and the delivery address.
pub struct PdfReading {
    pub extracted_text: Option<String>,
    pub tickets: Vec<TicketRow>,
    pub address: Option<String>,
}

/// Reads an uploaded PDF of the job `job_id`, stored as `file_uuid`: its
/// text; and where the file is a bill of lading and has text, its tickets
/// and its address.
pub fn read_job_pdf(data: &[u8], file_name: &str, job_id: &str, file_uuid: &str) -> (r: PdfReading)
    requires
        !pdf_panics(data@),
    ensures
        opt_str(r.extracted_text) == pdf_text(data@),
        (lading_name(file_name@) && pdf_text(data@) is Some) ==> ({
            let text = pdf_text(data@)->0;
            &&& r.tickets@.len() == lading_tickets(text).len()
            &&& forall|k: int|
                0 <= k < r.tickets@.len() ==> row_is(
                    #[trigger] r.tickets@[k],
                    job_id@,
                    file_uuid@,
                    lading_tickets(text)[k],
                )
            &&& opt_str(r.address) == bol_address(text)
        }),
        !(lading_name(file_name@) && pdf_text(data@) is Some) ==> r.tickets@.len() == 0 && r.address is None,
{
    let extracted_text = extract_pdf_text(data, file_name);
    let mut tickets: Vec<TicketRow> = Vec::new();
    let mut address: Option<String> = None;
    if is_lading_file(file_name) {
        match &extracted_text {
            Some(text) => {
                tickets = parse_lading_tickets(text.as_str(), job_id, file_uuid, file_name);
                address = extract_bol_address(text.as_str());
            },
            None => {},
        }
    }
    PdfReading { extracted_text, tickets, address }
}

/// Reads an uploaded PDF as `read_job_pdf` does, or gives `Err` for a file
/// whose reading would panic.
pub fn read_job_pdf_checked(data: &[u8], file_name: &str, job_id: &str, file_uuid: &str) -> (r: Result<
    PdfReading,
    UnreadablePdf,
>)
    ensures
        r is Err <==> pdf_panics(data@),
        r matches Ok(p) ==> {
            &&& opt_str(p.extracted_text) == pdf_text(data@)
            &&& (lading_name(file_name@) && pdf_text(data@) is Some) ==> ({
                let text = pdf_text(data@)->0;
                &&& p.tickets@.len() == lading_tickets(text).len()
                &&& forall|k: int|
                    0 <= k < p.tickets@.len() ==> row_is(
                        #[trigger] p.tickets@[k],
                        job_id@,
                        file_uuid@,
                        lading_tickets(text)[k],
                    )
                &&& opt_str(p.address) == bol_address(text)
            })
            &&& !(lading_name(file_name@) && pdf_text(data@) is Some) ==> p.tickets@.len() == 0 && p.address is None
        },
{
    let extracted_text = match pdf_text_checked(data) {
        Ok(t) => t,
        Err(e) => {
            return Err(e);
        },
    };
    let mut tickets: Vec<TicketRow> = Vec::new();
    let mut address: Option<String> = None;
    if is_lading_file(file_name) {
        match &extracted_text {
            Some(text) => {
                tickets = parse_lading_tickets(text.as_str(), job_id, file_uuid, file_name);
                address = extract_bol_address(text.as_str());
            },
            None => {},
        }
    }
    Ok(PdfReading { extracted_text, tickets, address })
}

fn copy_opt(o: &Option<String>) -> (r: Option<String>)
    ensures
        opt_str(r) == opt_str(*o),
{
    match o {
        Some(s) => Some(string_of(&chars_of(s.as_str()))),
        None => None,
    }
}

/// The tickets of rows read again from a file, as they are answered.
pub fn reparse_tickets(rows: &Vec<TicketRow>) -> (r: Vec<ReparseTicket>)
    ensures
        r@.len() == rows@.len(),
        forall|k: int|
            0 <= k < rows@.len() ==> {
                &&& (#[trigger] r@[k]).ticket_number@ == rows@[k].2@
                &&& opt_str(r@[k].description) == opt_str(rows@[k].3)
                &&& opt_str(r@[k].room) == opt_str(rows@[k].4)
                &&& r@[k].qty == rows@[k].5
                &&& opt_str(r@[k].section) == opt_str(rows@[k].6)
            },
{
    let mut r: Vec<ReparseTicket> = Vec::new();
    let mut k: usize = 0;
    while k < rows.len()
        invariant
            k <= rows@.len(),
            r@.len() == k,
            forall|j: int|
                0 <= j < k ==> {
                    &&& (#[trigger] r@[j]).ticket_number@ == rows@[j].2@
                    &&& opt_str(r@[j].description) == opt_str(rows@[j].3)
                    &&& opt_str(r@[j].room) == opt_str(rows@[j].4)
                    &&& r@[j].qty == rows@[j].5
                    &&& opt_str(r@[j].section) == opt_str(rows@[j].6)
                },
        decreases rows@.len() - k,
    {
        let t = &rows[k];
        r.push(
            ReparseTicket {
                ticket_number: string_of(&chars_of(t.2.as_str())),
                description: copy_opt(&t.3),
                room: copy_opt(&t.4),
                qty: t.5,
                section: copy_opt(&t.6),
            },
        );
        k = k + 1;
    }
    r
}

} // verus!
