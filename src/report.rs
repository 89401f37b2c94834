//! What is reported of each connection, as label and value pairs.

use vstd::prelude::*;
use vstd::string::*;
use crate::request::Request;
use crate::resolve::Resolved;

verus! {

/// Reported as the peer's address where it cannot be had.
pub const PEER_UNAVAILABLE: &'static str = "unavailable";

/// The peer's address as reported: `unavailable` where it cannot be had.
pub fn peer_label(addr: Option<String>) -> (r: String)
    ensures
        r@ == match addr {
            Some(a) => a@,
            None => PEER_UNAVAILABLE@,
        },
{
    match addr {
        Some(a) => a,
        None => PEER_UNAVAILABLE.to_owned(),
    }
}

/// The label and value pairs reported for one connection.
pub open spec fn report_spec(
    peer: Seq<char>,
    method: Seq<char>,
    path: Seq<char>,
    file: Seq<char>,
    mime: Seq<char>,
    verbose: bool,
) -> Seq<(Seq<char>, Seq<char>)> {
    let always = seq![("From"@, peer), ("Method"@, method), ("Requested Path"@, path)];
    if verbose {
        always + seq![("Given Path"@, file), ("MIME Type"@, mime)]
    } else {
        always
    }
}

/// The lines reported for a connection: always the peer, the method and the
/// requested path; in verbose mode also the resolved file and its MIME type.
pub fn connection_report(peer: &str, request: &Request, resolved: &Resolved, verbose: bool) -> (r:
    Vec<(String, String)>)
    ensures
        r@.map_values(|e: (String, String)| (e.0@, e.1@)) == report_spec(
            peer@,
            request.method@,
            request.path@,
            resolved.file@,
            resolved.mime@,
            verbose,
        ),
{
    let mut r: Vec<(String, String)> = Vec::new();
    r.push(("From".to_owned(), peer.to_owned()));
    r.push(("Method".to_owned(), request.method.clone()));
    r.push(("Requested Path".to_owned(), request.path.clone()));
    if verbose {
        r.push(("Given Path".to_owned(), resolved.file.clone()));
        r.push(("MIME Type".to_owned(), resolved.mime.clone()));
    }
    assert(r@.map_values(|e: (String, String)| (e.0@, e.1@)) =~= report_spec(
        peer@,
        request.method@,
        request.path@,
        resolved.file@,
        resolved.mime@,
        verbose,
    ));
    r
}

} // verus!
