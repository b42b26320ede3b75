//! Unit Worker outcome classification: one request-response cycle is reduced
//! to a plain event, and the event is classified as a keyed success or a
//! keyed failure with a human-readable reason.

use vstd::prelude::*;

use crate::date::{spec_date_string, date_string, Date};
use crate::text::{push_dec3, spec_dec3};

verus! {

/// One unit's classified result: the stable key used for merging, plus
/// either the decoded payload or a failure reason.
pub enum UnitOutcome<P> {
    Success { key: String, payload: P },
    Failure { key: String, reason: String },
}

impl<P> UnitOutcome<P> {
    pub open spec fn spec_key(&self) -> Seq<char> {
        match self {
            UnitOutcome::Success { key, .. } => key@,
            UnitOutcome::Failure { key, .. } => key@,
        }
    }

    pub open spec fn is_success(&self) -> bool {
        self matches UnitOutcome::Success { .. }
    }
}

/// What one request-response cycle yielded, as plain values: a transport
/// error, a non-success protocol status, an undecodable body, or the decoded
/// payload.
pub enum UnitEvent<P> {
    TransportError { detail: String },
    NonSuccessStatus { code: u16 },
    DecodeError { detail: String },
    Decoded { payload: P },
}

/// Classifies one unit's event under its key. Every decoded payload is a
/// success; every transport, protocol or decode error is absorbed as a
/// failure whose reason names its class — no event aborts anything.
pub fn classify_unit<P>(key: String, event: UnitEvent<P>) -> (r: UnitOutcome<P>)
    requires
        event matches UnitEvent::NonSuccessStatus { code } ==> 100 <= code <= 999,
    ensures
        match event {
            UnitEvent::Decoded { payload } => r == (UnitOutcome::Success { key, payload }),
            UnitEvent::TransportError { detail } => r matches UnitOutcome::Failure {
                key: k,
                reason,
            } && k == key && reason@ == "Request error: "@ + detail@,
            UnitEvent::NonSuccessStatus { code } => r matches UnitOutcome::Failure {
                key: k,
                reason,
            } && k == key && reason@ == "HTTP error: "@ + spec_dec3(code as int),
            UnitEvent::DecodeError { detail } => r matches UnitOutcome::Failure {
                key: k,
                reason,
            } && k == key && reason@ == "Error parsing JSON: "@ + detail@,
        },
{
    match event {
        UnitEvent::Decoded { payload } => UnitOutcome::Success { key, payload },
        UnitEvent::TransportError { detail } => {
            let mut reason = String::from_str("Request error: ");
            reason.append(detail.as_str());
            UnitOutcome::Failure { key, reason }
        },
        UnitEvent::NonSuccessStatus { code } => {
            let mut reason = String::from_str("HTTP error: ");
            push_dec3(&mut reason, code as u32);
            UnitOutcome::Failure { key, reason }
        },
        UnitEvent::DecodeError { detail } => {
            let mut reason = String::from_str("Error parsing JSON: ");
            reason.append(detail.as_str());
            UnitOutcome::Failure { key, reason }
        },
    }
}

/// The read endpoint's address for one date work item: a fixed base with the
/// date key as the sole filter parameter.
pub fn fetch_url(d: &Date) -> (r: String)
    ensures
        r@ == "https://api.data.gov.sg/v1/technology/ipos/trademarks?lodgement_date="@
            + spec_date_string(*d),
{
    let mut s = String::from_str(
        "https://api.data.gov.sg/v1/technology/ipos/trademarks?lodgement_date=",
    );
    let key = date_string(d);
    s.append(key.as_str());
    s
}

} // verus!
