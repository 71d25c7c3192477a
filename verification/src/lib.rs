//! Discovery and decoding of a site's sitemaps.
//!
//! Given a site, the library finds its sitemaps through `robots.txt` or at
//! the well-known places, decodes sitemap documents into content URLs and
//! references to further sitemaps, and decides which sitemaps to fetch
//! next, within bounds on depth, breadth and concurrency. It does no I/O:
//! a transport fetches what the state machines ask for and hands back what
//! came.

pub mod batch;
pub mod documents;
pub mod error;
pub mod parser;
pub mod robots;
pub mod sitemap;
pub mod text;
pub mod transport;
pub mod traversal;
pub mod url_set;
pub mod urls;
pub mod xml;

pub use batch::SiteBatch;
pub use error::SitemapError;
pub use parser::{ParsedSiteResult, RustSitemapParser, SiteCrawl};
pub use robots::{directive_from_join, parse_robots_txt};
pub use sitemap::{parse_fallback, parse_sitemap_xml, SitemapDecoder, SitemapParseResult};
pub use traversal::{SitemapTask, Traversal};
pub use url_set::UrlSet;
pub use urls::{
    absolute_from_join, canonical_string, glue, make_absolute_url, normalize_url, origin_string,
    sitemap_origin, Joined, UrlParts,
};
pub use xml::XmlToken;
