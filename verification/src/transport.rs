//! What the library asks of the transport that fetches for it, and how the
//! answer to a request counts.

use crate::error::SitemapError;
use vstd::prelude::*;
use vstd::string::StringExecFns;

verus! {

/// The user agent that a transport sends with every request.
pub const USER_AGENT: &'static str = "SitemapParser/1.0 (+https://timwhite.ninja)";

/// How many idle connections a transport keeps for one host.
pub const POOL_MAX_IDLE_PER_HOST: usize = 10;

/// After how many seconds a transport drops an idle connection.
pub const POOL_IDLE_TIMEOUT_SECONDS: u64 = 30;

/// The interval of a transport's TCP keepalive, in seconds.
pub const TCP_KEEPALIVE_SECONDS: u64 = 30;

/// Whether an HTTP status code stands for success: only then is the body
/// of the answer read as a document.
pub fn is_success_status(code: u16) -> (r: bool)
    ensures
        r == (200 <= code <= 299),
{
    200 <= code && code <= 299
}

/// The message for an answer whose status is no success.
pub open spec fn status_failure_text(status: Seq<char>, url: Seq<char>) -> Seq<char> {
    "HTTP "@ + status + " for "@ + url
}

/// The failure for an answer whose status is no success; `status` is the
/// code with its reason, such as `404 Not Found`.
pub fn status_failure(status: &str, url: &str) -> (e: SitemapError)
    ensures
        e is Network,
        e.text() == status_failure_text(status@, url@),
{
    let mut message = String::from_str("HTTP ");
    message.append(status);
    message.append(" for ");
    message.append(url);
    SitemapError::Network(message)
}

} // verus!
