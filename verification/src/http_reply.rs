//! Replies to HTTP requests.

use crate::text;
use vstd::prelude::*;
use vstd::string::*;

verus! {

/// Status and body of a reply.
#[derive(Debug)]
pub struct HttpReply {
    pub status: u16,
    pub body: Vec<u8>,
}

/// Statuses from 200 to 299.
pub open spec fn success(status: u16) -> bool {
    200 <= status < 300
}

/// Whether a status is one of success.
pub fn is_success(status: u16) -> (r: bool)
    ensures
        r == success(status),
{
    200 <= status && status < 300
}

/// `label`, the status, and `tail`.
pub fn status_text(label: &str, status: u16, tail: &str) -> (r: String)
    ensures
        r@ == label@ + text::decimal(status as nat) + tail@,
{
    let mut s = text::numbered(label, status as u64);
    s.append(tail);
    s
}

/// The statuses of success are those whose first of three digits is a two.
pub proof fn law_success_is_two_hundred(status: u16)
    ensures
        success(status) <==> status / 100 == 2,
{
}
} // verus!
