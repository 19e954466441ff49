//! The switch of the developer log, and hosts in URLs.

use crate::text;
use vstd::string::*;
use vstd::prelude::*;

verus! {

pub const DEBUG_BUILD_ID: &'static str = "v0.1.0";

/// Whether the value of the log switch turns the developer log on: `1` does, and nothing else.
pub fn debug_logging_enabled(value: Option<&str>) -> (r: bool)
    ensures
        r == (value matches Some(v) && v@ == "1"@),
{
    match value {
        Some(v) => text::same_text(v, "1"),
        None => false,
    }
}

/// A host that is an IP address, with the address in its usual notation.
#[derive(Debug, Clone)]
pub enum IpLiteral {
    V4(String),
    V6(String),
}

/// A host as a URL has it, given the address that the host parses as.
pub open spec fn url_host(host: Seq<char>, literal: Option<IpLiteral>) -> Seq<char> {
    if host.len() > 0 && host[0] == '[' {
        host
    } else {
        match literal {
            Some(IpLiteral::V4(s)) => s@,
            Some(IpLiteral::V6(s)) => "["@ + s@ + "]"@,
            None => host,
        }
    }
}

/// A host for use in a URL: IPv6 addresses stand in brackets.
pub fn format_host_for_url(host: &str, literal: Option<IpLiteral>) -> (r: String)
    ensures
        r@ == url_host(host@, literal),
{
    let chars = text::chars_of(host);
    if chars.len() > 0 && chars[0] == '[' {
        return text::owned(host);
    }
    match literal {
        Some(IpLiteral::V4(s)) => s,
        Some(IpLiteral::V6(s)) => {
            let mut out = text::owned("[");
            out.append(s.as_str());
            out.append("]");
            out
        },
        None => text::owned(host),
    }
}

} // verus!
