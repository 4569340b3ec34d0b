//! A notebook of numbered pages: the notebook and its changes, the text
//! format of its files, and the cut of a page that holds more than fits.
//!
//! Every function is verified against a contract over plain values: texts
//! are sequences of characters, a notebook is a sequence of pages. What is
//! left to `chrono` (the calendar) and `uuid` (fresh identifiers) is marked
//! where it is called.

pub mod decimal;
pub mod file_io;
pub mod format;
pub mod format_laws;
pub mod ident;
pub mod notebook;
pub mod notebook_laws;
pub mod onenote_converter;
pub mod paginator;
pub mod session;
pub mod text;
pub mod text_laws;
pub mod timestamp;
