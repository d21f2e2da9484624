//! The gateway: what one dashboard request is answered with.
//!
//! A request is answered from one fresh upstream exchange.  Where the
//! exchange completed, the body is decoded and the page rendered; where it
//! did not, or the body does not match the expected schema, the answer is a
//! whole-response failure — status 500 with a message naming the failure
//! kind, transport and decode failures kept distinguishable.  There is no
//! retry and no partial or stale result.

use vstd::prelude::*;
use crate::device::spec_decode;
use crate::device::decode_body;
use crate::render::{page_bytes, render_page};
use crate::json::{ascii_of, ascii_bytes};

verus! {

/// How one upstream exchange ended, as the network layer hands it over: the
/// response body's bytes, or a transport failure (the exchange did not
/// complete at all).
pub enum FetchOutcome {
    Body(Vec<u8>),
    TransportFailure,
}

/// The two per-request failure kinds, kept apart so an operator can tell
/// "upstream unreachable" from "upstream contract changed".
#[derive(PartialEq, Eq, Structural, Clone, Copy, Debug)]
pub enum ErrorKind {
    Transport,
    Decode,
}

/// One HTTP response: its status, whether the body is HTML, and the body.
pub struct HttpReply {
    pub status: u16,
    pub html: bool,
    pub body: Vec<u8>,
}

/// The body sent for a transport failure.
pub open spec fn transport_msg() -> Seq<u8> {
    ascii_of("transport error: the upstream exchange did not complete"@)
}

/// The body sent for a decode failure.
pub open spec fn decode_msg() -> Seq<u8> {
    ascii_of("decode error: the upstream response did not match the expected schema"@)
}

/// Law: the two failure kinds are distinguishable — a transport failure and a
/// decode failure are never answered with the same body.
pub proof fn lemma_error_kinds_distinguishable()
    ensures
        transport_msg() != decode_msg(),
{
    reveal_strlit("transport error: the upstream exchange did not complete");
    reveal_strlit("decode error: the upstream response did not match the expected schema");
    assert(transport_msg().len() != decode_msg().len());
}

/// How an outcome is classified: a transport failure, a decode failure, or
/// (`None`) a success owed a rendered page.
pub open spec fn spec_classify(o: FetchOutcome) -> Option<ErrorKind> {
    match o {
        FetchOutcome::TransportFailure => Some(ErrorKind::Transport),
        FetchOutcome::Body(b) => if spec_decode(b@) is None {
            Some(ErrorKind::Decode)
        } else {
            None
        },
    }
}

/// The response owed to an outcome at a given time: status, whether HTML,
/// body.
pub open spec fn spec_respond(o: FetchOutcome, now: Seq<u8>) -> (u16, bool, Seq<u8>) {
    match o {
        FetchOutcome::TransportFailure => (500u16, false, transport_msg()),
        FetchOutcome::Body(b) => match spec_decode(b@) {
            None => (500u16, false, decode_msg()),
            Some(ds) => (200u16, true, page_bytes(ds, now)),
        },
    }
}

/// Classifies one outcome, as [`spec_classify`] says.
pub fn classify(o: &FetchOutcome) -> (r: Option<ErrorKind>)
    ensures
        r == spec_classify(*o),
{
    match o {
        FetchOutcome::TransportFailure => Some(ErrorKind::Transport),
        FetchOutcome::Body(b) => match decode_body(b.as_slice()) {
            None => Some(ErrorKind::Decode),
            Some(_) => None,
        },
    }
}

/// Answers one dashboard request from an upstream outcome and a timestamp:
/// a 200 HTML page where the body decodes, a 500 with the failure kind's
/// message where it does not.
pub fn respond(o: &FetchOutcome, now: &[u8]) -> (r: HttpReply)
    ensures
        (r.status, r.html, r.body@) == spec_respond(*o, now@),
        r.status == 200 <==> spec_classify(*o) is None,
{
    match o {
        FetchOutcome::TransportFailure => {
            proof {
                reveal_strlit("transport error: the upstream exchange did not complete");
            }
            let body = vstd::slice::slice_to_vec(
                ascii_bytes("transport error: the upstream exchange did not complete"),
            );
            HttpReply { status: 500, html: false, body }
        },
        FetchOutcome::Body(b) => match decode_body(b.as_slice()) {
            None => {
                proof {
                    reveal_strlit(
                        "decode error: the upstream response did not match the expected schema",
                    );
                }
                let body = vstd::slice::slice_to_vec(
                    ascii_bytes(
                        "decode error: the upstream response did not match the expected schema",
                    ),
                );
                HttpReply { status: 500, html: false, body }
            },
            Some(ds) => {
                let body = render_page(&ds, now);
                HttpReply { status: 200, html: true, body }
            },
        },
    }
}

/// Relies on `chrono::Utc::now` and `chrono::DateTime::to_rfc3339`: the
/// current time as RFC 3339 text, which is never empty.  The value depends on
/// the clock, so nothing more is stated of it.
#[verifier::external_body]
fn now_rfc3339_bytes() -> (r: Vec<u8>)
    ensures
        r@.len() > 0,
{
    chrono::Utc::now().to_rfc3339().into_bytes()
}

/// Answers one dashboard request at the current time: [`respond`], with the
/// clock read for the timestamp.  Whatever the clock gave, the answer is the
/// one owed to the outcome at some non-empty timestamp.
pub fn respond_now(o: &FetchOutcome) -> (r: HttpReply)
    ensures
        exists|now: Seq<u8>|
            now.len() > 0 && (r.status, r.html, r.body@) == spec_respond(*o, now),
{
    let now = now_rfc3339_bytes();
    let r = respond(o, now.as_slice());
    proof {
        assert(now@.len() > 0 && (r.status, r.html, r.body@) == spec_respond(*o, now@));
    }
    r
}

/// The process-wide, read-only configuration: the upstream credential,
/// established once at startup and shared unchanged across requests.
pub struct Config {
    pub token: String,
}

/// Why startup is refused.
#[derive(PartialEq, Eq, Structural, Clone, Copy, Debug)]
pub enum StartupError {
    MissingCredential,
}

/// Builds the configuration from the credential the environment gave, if
/// any.  Succeeds exactly where a credential is present: without one the
/// process must not begin serving.
pub fn init_config(token: Option<String>) -> (r: Result<Config, StartupError>)
    ensures
        match token {
            Some(t) => r == Ok::<Config, StartupError>(Config { token: t }),
            None => r == Err::<Config, StartupError>(StartupError::MissingCredential),
        },
{
    match token {
        Some(t) => Ok(Config { token: t }),
        None => Err(StartupError::MissingCredential),
    }
}

/// The fixed upstream endpoint the device list is fetched from.
pub fn devices_url() -> (r: &'static str)
    ensures
        r@ == "https://webapi.teamviewer.com/api/v1/devices"@,
{
    "https://webapi.teamviewer.com/api/v1/devices"
}

} // verus!
