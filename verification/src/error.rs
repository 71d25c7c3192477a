//! The failures that a crawl can meet.

use vstd::prelude::*;

verus! {

/// Why a URL could not be used or a document could not be had.
#[derive(Debug)]
pub enum SitemapError {
    /// A base or a reference that does not parse as a URL; holds the
    /// parser's message.
    InvalidUrl(String),
    /// A fetch that failed: no connection, a status outside 2xx, a timeout;
    /// holds the transport's message.
    Network(String),
}

impl Clone for SitemapError {
    fn clone(&self) -> (r: SitemapError)
        ensures
            r == *self,
    {
        match self {
            SitemapError::InvalidUrl(m) => SitemapError::InvalidUrl(m.clone()),
            SitemapError::Network(m) => SitemapError::Network(m.clone()),
        }
    }
}

impl SitemapError {
    /// The human-readable message.
    pub open spec fn text(self) -> Seq<char> {
        match self {
            SitemapError::InvalidUrl(m) => m@,
            SitemapError::Network(m) => m@,
        }
    }

    /// The human-readable message.
    pub fn message(&self) -> (m: String)
        ensures
            m@ == self.text(),
    {
        match self {
            SitemapError::InvalidUrl(m) => m.clone(),
            SitemapError::Network(m) => m.clone(),
        }
    }

    /// Whether trying again later could succeed.
    pub fn is_retryable(&self) -> (r: bool)
        ensures
            r == (self is Network),
    {
        match self {
            SitemapError::InvalidUrl(_) => false,
            SitemapError::Network(_) => true,
        }
    }
}

} // verus!
