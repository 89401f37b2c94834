//! A minimal HTTP/1.1 file server's connection logic: parsing the request
//! line, choosing what to serve along a fixed fallback chain, and laying out
//! the response bytes.

pub mod request;
pub mod resolve;
pub mod response;
pub mod cli;
pub mod report;
