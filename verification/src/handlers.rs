//! The request handlers' decisions.
//!
//! Every reachable outcome maps to a defined response: a well-formed
//! store body leads to an insert; an oversized or malformed body is
//! rejected before any insert; a data-access failure becomes a bare
//! generic server error; success becomes a JSON body with status 200.

use vstd::prelude::*;

use crate::measurement::{Measurement, StoreInput};
use crate::parse::{parse_store_body, spec_parse_store};
use crate::render::{render_list, render_measurement, spec_json_list, spec_json_measurement,
    views_of};

verus! {

/// The largest store request body accepted, in bytes.
pub const BODY_LIMIT_BYTES: usize = 16384;

/// Status of a rejected store body: payload too large.
pub const STATUS_PAYLOAD_TOO_LARGE: u16 = 413;

/// Status of a rejected store body: malformed.
pub const STATUS_BAD_REQUEST: u16 = 400;

/// Status of a successful operation.
pub const STATUS_OK: u16 = 200;

/// Status of any data-access failure: a bare generic server error.
pub const STATUS_SERVER_ERROR: u16 = 500;

/// An HTTP response: a status code and a body.
pub struct HttpResponse {
    pub status: u16,
    pub body: Vec<u8>,
}

/// What to do with a store request: reject it with the given response,
/// or insert the given readings.
pub enum StoreStep {
    Reject(HttpResponse),
    Insert(StoreInput),
}

/// Decide a store request from its raw body.
///
/// A body over the size limit is rejected with status 413 before it is
/// even decoded; a body that the grammar rejects — one missing a
/// reading, duplicating one, or giving one a non-integer value — is
/// rejected with status 400.  Only a conforming body reaches the insert,
/// with exactly the readings the body spelled.  Rejections carry an
/// empty body.
pub fn handle_store_body(body: &Vec<u8>) -> (r: StoreStep)
    ensures
        body@.len() > BODY_LIMIT_BYTES ==> (r matches StoreStep::Reject(resp)
            && resp.status == STATUS_PAYLOAD_TOO_LARGE && resp.body@.len() == 0),
        body@.len() <= BODY_LIMIT_BYTES && spec_parse_store(body@) is None ==> (r
            matches StoreStep::Reject(resp) && resp.status == STATUS_BAD_REQUEST
            && resp.body@.len() == 0),
        body@.len() <= BODY_LIMIT_BYTES && spec_parse_store(body@) is Some ==> (r
            matches StoreStep::Insert(m) && spec_parse_store(body@) == Some(m.triple())),
{
    if body.len() > BODY_LIMIT_BYTES {
        StoreStep::Reject(HttpResponse { status: STATUS_PAYLOAD_TOO_LARGE, body: Vec::new() })
    } else {
        match parse_store_body(body) {
            None => StoreStep::Reject(
                HttpResponse { status: STATUS_BAD_REQUEST, body: Vec::new() },
            ),
            Some(m) => StoreStep::Insert(m),
        }
    }
}

/// The response to any data-access failure: a generic server error with
/// an empty body.  The caller cannot distinguish why the operation
/// failed.
pub fn error_response() -> (r: HttpResponse)
    ensures
        r.status == STATUS_SERVER_ERROR,
        r.body@.len() == 0,
{
    HttpResponse { status: STATUS_SERVER_ERROR, body: Vec::new() }
}

/// The response once the insert's `RETURNING` rows are back: status 200
/// with the first returned row rendered as JSON.  The database is
/// expected to return exactly one row for a single-row insert; should it
/// return none, the absence is reported as a generic server error rather
/// than treated as unreachable.
pub fn store_rows_response(rows: &Vec<Measurement>) -> (r: HttpResponse)
    ensures
        rows@.len() == 0 ==> r.status == STATUS_SERVER_ERROR && r.body@.len() == 0,
        rows@.len() > 0 ==> r.status == STATUS_OK && r.body@ == spec_json_measurement(rows@[0]@),
{
    if rows.len() == 0 {
        error_response()
    } else {
        HttpResponse { status: STATUS_OK, body: render_measurement(&rows[0]) }
    }
}

/// The response to a successful list: status 200 with the rows rendered
/// as JSON in the order given — an empty list is a success, not an
/// error.
pub fn list_response(rows: &Vec<Measurement>) -> (r: HttpResponse)
    ensures
        r.status == STATUS_OK,
        r.body@ == spec_json_list(views_of(rows@)),
{
    HttpResponse { status: STATUS_OK, body: render_list(rows) }
}

} // verus!
