//! Decodes environmental-sensor broadcast payloads and packages the decoded
//! readings into the log sink's wire envelope.
//!
//! The pipeline is: an event filter recognizes vendor broadcasts and extracts
//! the payload bytes, a payload decoder turns the fixed-offset byte layout
//! into semantic fields, a reading builder stamps the wall-clock time, and an
//! envelope builder renders the reading as the JSON body of one HTTP POST.
//! The surrounding program supplies the broadcast events and performs the
//! POST; everything in this crate is pure computation over the bytes.

pub mod decode;
pub mod envelope;
pub mod filter;
pub mod reading;
