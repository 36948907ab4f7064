//! Push-mode request validation: an inbound request claims an address and
//! carries a shared secret; the core checks the secret and the address shape
//! and decides whether to propagate.
use vstd::prelude::*;
use crate::ipv4::{check_if_ipv4, is_ipv4};

verus! {

/// The decision on an inbound push request. `Propagate` asks the driver to
/// propagate the claimed address to every configured record; the response is
/// ok regardless of the provider's outcomes.
pub enum PushDecision {
    Unauthorized,
    BadRequest,
    Propagate,
}

/// Validates an inbound push request: the secret must match exactly, and the
/// claimed address must be a dotted-quad IPv4 literal. A bad secret is
/// rejected before the address is looked at.
pub fn validate_push(ip: &str, password: &String, secret: &String) -> (r: PushDecision)
    ensures
        r is Unauthorized <==> password@ != secret@,
        r is BadRequest <==> password@ == secret@ && !is_ipv4(ip@),
        r is Propagate <==> password@ == secret@ && is_ipv4(ip@),
{
    if !password.eq(secret) {
        return PushDecision::Unauthorized;
    }
    if !check_if_ipv4(ip) {
        return PushDecision::BadRequest;
    }
    PushDecision::Propagate
}

} // verus!
