//! Where the streamable-HTTP transport may listen.
//!
//! The transport binds loopback only: `127.0.0.0/8` or `::1`. Any other
//! address is refused outright; there is no fallback to another address.

use vstd::prelude::*;

verus! {

/// The address the transport binds when none is configured.
pub open spec fn default_http_addr() -> Seq<char> {
    "127.0.0.1:8770"@
}

/// The bind address: the configured value when it is set and non-empty, the
/// default otherwise.
pub fn resolve_http_addr(configured: Option<String>) -> (r: String)
    ensures
        match configured {
            Some(s) => if s@.len() > 0 {
                r@ == s@
            } else {
                r@ == default_http_addr()
            },
            None => r@ == default_http_addr(),
        },
{
    match configured {
        Some(s) => {
            if s.as_str().is_empty() {
                "127.0.0.1:8770".to_owned()
            } else {
                s
            }
        },
        None => "127.0.0.1:8770".to_owned(),
    }
}

/// The IP part of a parsed socket address.
#[derive(Debug, Clone, Copy, PartialEq, Eq, Structural)]
pub enum BindIp {
    /// The four octets of an IPv4 address.
    V4(u8, u8, u8, u8),
    /// The eight 16-bit segments of an IPv6 address.
    V6(u16, u16, u16, u16, u16, u16, u16, u16),
}

/// Loopback: any IPv4 address in `127.0.0.0/8`, or the IPv6 address `::1`.
pub open spec fn spec_is_loopback(ip: BindIp) -> bool {
    match ip {
        BindIp::V4(a, _, _, _) => a == 127,
        BindIp::V6(a, b, c, d, e, f, g, h) => a == 0 && b == 0 && c == 0 && d == 0 && e == 0 && f
            == 0 && g == 0 && h == 1,
    }
}

/// Whether the transport may bind `ip`: only loopback addresses qualify.
pub fn is_loopback(ip: BindIp) -> (r: bool)
    ensures
        r == spec_is_loopback(ip),
{
    match ip {
        BindIp::V4(a, _, _, _) => a == 127,
        BindIp::V6(a, b, c, d, e, f, g, h) => a == 0 && b == 0 && c == 0 && d == 0 && e == 0 && f
            == 0 && g == 0 && h == 1,
    }
}

} // verus!
