//! A verified decoder for a line-oriented, semicolon/colon-delimited
//! contact-card text format.
//!
//! The decoder works in two passes over an in-memory byte buffer:
//! first [`unfold::unfold`] reverses physical line folding (a CR LF pair
//! followed by a single space marks a continuation), then
//! [`parser::parse`] checks the `BEGIN:VCARD` / `VERSION:3.0` / `END:VCARD`
//! envelope and turns each logical line in between into a
//! [`model::Property`] record (name, ordered parameters, comma-split
//! values).  Records hold owned copies of the input bytes, so they do not
//! borrow from the buffer they were parsed from.

pub mod laws;
pub mod model;
pub mod parser;
pub mod scan;
pub mod unfold;
