# codebar_server

The server of CabNet, which collects barcode scans, jobs, time entries and
reports from the CabNet phone apps, and reads the text and shipping tickets
of the PDFs uploaded for a job.

The library (`src/`) holds the server's logic, each function with a
contract proved by Verus:

- `text`: the string operations the rest is written with.
- `pdf_objects`, `pdf_fonts`, `cmap`, `pdf_text`: reading the text of a PDF
  (streams, FlateDecode, per-font ToUnicode character maps, text operators).
- `lading`: tickets and the delivery address of a bill of lading.
- `job_files`: what is read from an uploaded PDF.
- `requests`, `devices`, `records`, `settings`, `timekeeping`: the decisions
  of the API (registration, heartbeats, web client changes, stored records,
  settings, rounding, automatic breaks, team status and timesheets).
- `config`, `gui`, `models`, `api`: configuration, window decisions, and
  the records and messages of the API.

`app/` is the program around it: the HTTP routes (axum), the SQLite
database (sqlx) and the JSON forms of the library's types.

Run it with `cargo run --release`; it listens on the address that
`SERVER_HOST` and `SERVER_PORT` give (by default `0.0.0.0:8080`).
