use vstd::prelude::*;

pub mod text;
pub mod lading;
pub mod cmap;
pub mod pdf_objects;
pub mod pdf_fonts;
pub mod pdf_text;
pub mod models;
pub mod api;
pub mod config;
pub mod timekeeping;
pub mod settings;
pub mod requests;
pub mod gui;
pub mod job_files;
pub mod records;
pub mod devices;

verus! {
}
