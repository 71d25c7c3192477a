use sitemap_parser::transport::{
    is_success_status, status_failure,
    POOL_IDLE_TIMEOUT_SECONDS, POOL_MAX_IDLE_PER_HOST, TCP_KEEPALIVE_SECONDS, USER_AGENT,
};
use sitemap_parser::{ParsedSiteResult, RustSitemapParser, SitemapError, Traversal};

fn not_found(url: &str) -> Result<String, SitemapError> {
    Err(SitemapError::Network(format!("HTTP 404 Not Found for {}", url)))
}

fn crawl_site(
    parser: &RustSitemapParser,
    base_url: &str,
    web: &dyn Fn(&str) -> Result<String, SitemapError>,
) -> (ParsedSiteResult, Vec<Vec<String>>) {
    let mut crawl = parser.parse_site(base_url).unwrap();
    let mut rounds: Vec<Vec<String>> = Vec::new();
    while !crawl.is_finished() {
        let urls = crawl.requests();
        let fetched: Vec<Result<String, SitemapError>> = urls.iter().map(|u| web(u)).collect();
        assert!(crawl.advance(&fetched));
        rounds.push(urls);
        assert!(rounds.len() < 100);
    }
    assert!(crawl.requests().is_empty());
    (crawl.into_result(1500), rounds)
}

fn drain(traversal: &mut Traversal, web: &dyn Fn(&str) -> Result<String, SitemapError>) -> usize {
    let mut rounds = 0;
    while !traversal.is_finished() {
        let fetched: Vec<Result<String, SitemapError>> =
            traversal.pending().iter().map(|t| web(&t.url)).collect();
        assert!(traversal.advance(&fetched));
        rounds += 1;
        assert!(rounds < 100);
    }
    rounds
}

#[test]
fn site_without_directives_tries_the_well_known_places() {
    let web = |url: &str| -> Result<String, SitemapError> {
        match url {
            "https://example.com/robots.txt" => Ok("User-agent: *\nDisallow: /private/\n".to_string()),
            "https://example.com/sitemap.xml" => Ok(
                "<urlset><url><loc>https://example.com/one</loc></url><url><loc>https://example.com/two</loc></url></urlset>"
                    .to_string(),
            ),
            other => not_found(other),
        }
    };
    let parser = RustSitemapParser::default();
    let (result, rounds) = crawl_site(&parser, "example.com", &web);
    assert_eq!(result.base_url, "example.com");
    assert_eq!(
        result.sitemaps_found,
        vec![
            "https://example.com/sitemap.xml".to_string(),
            "https://example.com/sitemap_index.xml".to_string(),
            "https://example.com/sitemaps.xml".to_string(),
        ]
    );
    assert_eq!(
        result.urls.to_vec(),
        vec!["https://example.com/one".to_string(), "https://example.com/two".to_string()]
    );
    assert_eq!(
        result.errors,
        vec![
            "Error processing sitemap: HTTP 404 Not Found for https://example.com/sitemap_index.xml"
                .to_string(),
            "Error processing sitemap: HTTP 404 Not Found for https://example.com/sitemaps.xml"
                .to_string(),
        ]
    );
    assert_eq!(result.total_requests, 4);
    assert_eq!(result.parse_time_micros, 1500);
    assert_eq!(
        rounds,
        vec![
            vec!["https://example.com/robots.txt".to_string()],
            vec![
                "https://example.com/sitemap.xml".to_string(),
                "https://example.com/sitemap_index.xml".to_string(),
                "https://example.com/sitemaps.xml".to_string(),
            ],
        ]
    );
}

#[test]
fn site_whose_robots_cannot_be_fetched_ends_with_that_error() {
    let web = |url: &str| -> Result<String, SitemapError> {
        Err(SitemapError::Network(format!("connection refused: {}", url)))
    };
    let parser = RustSitemapParser::default();
    let (result, rounds) = crawl_site(&parser, "https://example.com/shop/", &web);
    assert!(result.urls.is_empty());
    assert!(result.sitemaps_found.is_empty());
    assert_eq!(
        result.errors,
        vec![
            "Could not fetch robots.txt from https://example.com/shop/robots.txt: connection refused: https://example.com/shop/robots.txt"
                .to_string()
        ]
    );
    assert_eq!(result.total_requests, 1);
    assert_eq!(rounds.len(), 1);
}

#[test]
fn site_follows_its_directives_within_the_bounds() {
    let web = |url: &str| -> Result<String, SitemapError> {
        match url {
            "https://example.com/robots.txt" => Ok(
                "Sitemap: /index.xml\nSitemap: https://example.com/pages.xml\nSitemap: /left-out.xml\n"
                    .to_string(),
            ),
            "https://example.com/index.xml" => Ok(
                "<sitemapindex><sitemap><loc>/n1.xml</loc></sitemap><sitemap><loc>/n2.xml</loc></sitemap><sitemap><loc>/n3.xml</loc></sitemap></sitemapindex>"
                    .to_string(),
            ),
            "https://example.com/pages.xml" => {
                Ok("<urlset><url><loc>https://example.com/p</loc></url></urlset>".to_string())
            }
            "https://example.com/n1.xml" => Ok(
                "<urlset><url><loc>https://example.com/n1</loc></url><url><loc>https://example.com/p</loc></url></urlset>"
                    .to_string(),
            ),
            "https://example.com/n2.xml" => Ok(
                "<sitemapindex><sitemap><loc>/too-deep.xml</loc></sitemap></sitemapindex>".to_string(),
            ),
            other => panic!("not to be fetched: {}", other),
        }
    };
    let parser = RustSitemapParser::new(3, 2, 2, 2, 30);
    let (result, rounds) = crawl_site(&parser, "https://example.com", &web);
    assert_eq!(
        result.sitemaps_found,
        vec![
            "https://example.com/index.xml".to_string(),
            "https://example.com/pages.xml".to_string(),
            "https://example.com/left-out.xml".to_string(),
        ]
    );
    assert_eq!(
        result.urls.to_vec(),
        vec!["https://example.com/p".to_string(), "https://example.com/n1".to_string()]
    );
    assert!(result.errors.is_empty());
    assert_eq!(result.total_requests, 5);
    assert_eq!(rounds.len(), 3);
    assert_eq!(
        rounds[2],
        vec!["https://example.com/n1.xml".to_string(), "https://example.com/n2.xml".to_string()]
    );
}

#[test]
fn site_with_depth_zero_fetches_only_robots() {
    let web = |url: &str| -> Result<String, SitemapError> {
        match url {
            "https://example.com/robots.txt" => Ok("Sitemap: /index.xml".to_string()),
            other => panic!("not to be fetched: {}", other),
        }
    };
    let parser = RustSitemapParser::new(10, 10, 0, 5, 30);
    let (result, rounds) = crawl_site(&parser, "https://example.com", &web);
    assert_eq!(result.sitemaps_found, vec!["https://example.com/index.xml".to_string()]);
    assert!(result.urls.is_empty());
    assert!(result.errors.is_empty());
    assert_eq!(result.total_requests, 1);
    assert_eq!(rounds.len(), 1);

    let none = RustSitemapParser::new(10, 0, 2, 5, 30);
    let (result, rounds) = crawl_site(&none, "https://example.com", &web);
    assert_eq!(result.sitemaps_found.len(), 1);
    assert_eq!(result.total_requests, 1);
    assert_eq!(rounds.len(), 1);
}

#[test]
fn a_cycle_of_sitemaps_ends_at_the_depth_bound() {
    let web = |url: &str| -> Result<String, SitemapError> {
        match url {
            "https://example.com/robots.txt" => Ok("Sitemap: /a.xml".to_string()),
            "https://example.com/a.xml" => Ok(
                "<sitemapindex><sitemap><loc>/b.xml</loc></sitemap></sitemapindex>".to_string(),
            ),
            "https://example.com/b.xml" => Ok(
                "<sitemapindex><sitemap><loc>/a.xml</loc></sitemap></sitemapindex>".to_string(),
            ),
            other => not_found(other),
        }
    };
    let parser = RustSitemapParser::new(10, 10, 7, 5, 30);
    let (result, rounds) = crawl_site(&parser, "https://example.com", &web);
    assert_eq!(rounds.len(), 8);
    assert_eq!(result.total_requests, 8);
    assert!(result.urls.is_empty());
    assert!(result.errors.is_empty());
}

#[test]
fn results_must_match_the_requests() {
    let parser = RustSitemapParser::default();
    let mut crawl = parser.parse_site("example.com").unwrap();
    assert_eq!(crawl.requests(), vec!["https://example.com/robots.txt".to_string()]);
    assert!(!crawl.is_finished());
    assert!(!crawl.advance(&vec![]));
    assert!(!crawl.advance(&vec![Ok(String::new()), Ok(String::new())]));
    assert_eq!(crawl.requests(), vec!["https://example.com/robots.txt".to_string()]);
    assert!(crawl.advance(&vec![Ok(String::new())]));
    assert_eq!(crawl.requests().len(), 3);
    assert!(!crawl.advance(&vec![Ok(String::new())]));
    assert_eq!(crawl.requests().len(), 3);
}

#[test]
fn a_site_that_is_no_url_cannot_be_crawled() {
    let parser = RustSitemapParser::default();
    let error = match parser.parse_site("http://") {
        Err(e) => e,
        Ok(_) => panic!("expected a failure"),
    };
    assert!(matches!(error, SitemapError::InvalidUrl(_)));
    let result = ParsedSiteResult::failed("http://".to_string(), &error);
    assert_eq!(result.base_url, "http://");
    assert_eq!(result.errors, vec!["Failed to parse http://: empty host".to_string()]);
    assert!(result.urls.is_empty());
    assert!(result.sitemaps_found.is_empty());
    assert_eq!(result.total_requests, 0);
    assert_eq!(result.parse_time_micros, 0);

    let fresh = ParsedSiteResult::new("example.com".to_string());
    assert_eq!(fresh.base_url, "example.com");
    assert!(fresh.urls.is_empty() && fresh.sitemaps_found.is_empty() && fresh.errors.is_empty());
    assert_eq!(fresh.total_requests, 0);
}

#[test]
fn specific_sitemaps_are_read_one_level_deep() {
    let web = |url: &str| -> Result<String, SitemapError> {
        match url {
            "https://a.example/maps/index.xml" => Ok(
                "<sitemapindex><sitemap><loc>/nested.xml</loc></sitemap></sitemapindex>".to_string(),
            ),
            "https://b.example/sitemap.xml" => Ok(
                "<urlset><url><loc>https://b.example/1</loc></url><url><loc>https://b.example/2</loc></url></urlset>"
                    .to_string(),
            ),
            "https://c.example/sitemap.xml" => Ok(
                "<urlset><url><loc>https://b.example/2</loc></url><url><loc>https://c.example/3</loc></url></urlset>"
                    .to_string(),
            ),
            other => not_found(other),
        }
    };
    let parser = RustSitemapParser::default();
    let mut traversal = parser.parse_specific_sitemaps(vec![
        "https://a.example/maps/index.xml".to_string(),
        "https://b.example/sitemap.xml".to_string(),
        "https://gone.example/sitemap.xml".to_string(),
        "https://c.example/sitemap.xml".to_string(),
    ]);
    let bases: Vec<String> = traversal.pending().iter().map(|t| t.base_url.clone()).collect();
    assert_eq!(
        bases,
        vec![
            "https://a.example".to_string(),
            "https://b.example".to_string(),
            "https://gone.example".to_string(),
            "https://c.example".to_string(),
        ]
    );
    assert!(traversal.pending().iter().all(|t| t.depth == 1 && !t.guarded));
    assert_eq!(drain(&mut traversal, &web), 1);
    assert_eq!(
        traversal.urls().to_vec(),
        vec![
            "https://b.example/1".to_string(),
            "https://b.example/2".to_string(),
            "https://c.example/3".to_string(),
        ]
    );
    assert_eq!(traversal.total_requests(), 4);
    assert_eq!(traversal.errors().len(), 1);

    let mut nothing = parser.parse_specific_sitemaps(Vec::new());
    assert_eq!(drain(&mut nothing, &web), 0);
    assert_eq!(nothing.total_requests(), 0);
}

#[test]
fn defaults_and_transport_settings() {
    let parser = RustSitemapParser::default();
    assert_eq!(parser.max_concurrent, 10);
    assert_eq!(parser.max_sitemaps, 10);
    assert_eq!(parser.max_depth, 2);
    assert_eq!(parser.max_nested_per_level, 5);
    assert_eq!(parser.request_timeout_seconds, 30);
    let other = RustSitemapParser::new(1, 2, 3, 4, 5);
    assert_eq!(other.max_concurrent, 1);
    assert_eq!(other.max_sitemaps, 2);
    assert_eq!(other.max_depth, 3);
    assert_eq!(other.max_nested_per_level, 4);
    assert_eq!(other.request_timeout_seconds, 5);
    assert_eq!(USER_AGENT, "SitemapParser/1.0 (+https://timwhite.ninja)");
    assert_eq!(POOL_MAX_IDLE_PER_HOST, 10);
    assert_eq!(POOL_IDLE_TIMEOUT_SECONDS, 30);
    assert_eq!(TCP_KEEPALIVE_SECONDS, 30);
}

#[test]
fn only_a_status_of_the_two_hundreds_is_a_success() {
    for code in 0..=u16::MAX {
        assert_eq!(is_success_status(code), (200..300).contains(&code), "{}", code);
    }
    let failure = status_failure("404 Not Found", "https://example.com/sitemap.xml");
    assert!(matches!(failure, SitemapError::Network(_)));
    assert!(failure.is_retryable());
    assert_eq!(failure.message(), "HTTP 404 Not Found for https://example.com/sitemap.xml");
    let copy = failure.clone();
    assert_eq!(copy.message(), failure.message());
}

#[test]
fn directives_are_taken_once_and_within_the_bound() {
    let parser = RustSitemapParser::new(3, 2, 2, 5, 30);
    let mut crawl = parser.parse_site("example.com").unwrap();
    let advertised: Vec<String> =
        ["https://a/1.xml", "https://a/2.xml", "https://a/3.xml"].iter().map(|s| s.to_string()).collect();
    assert!(crawl.take_directives(advertised.clone()));
    assert_eq!(crawl.requests(), advertised[..2].to_vec());
    assert!(!crawl.take_directives(Vec::new()));
    assert!(!crawl.fail_robots(&SitemapError::Network("late".to_string())));
    assert_eq!(crawl.requests(), advertised[..2].to_vec());
    let result = crawl.into_result(0);
    assert_eq!(result.sitemaps_found, advertised);
    assert_eq!(result.total_requests, 3);
    assert!(result.errors.is_empty());

    let mut plain = parser.parse_site("example.com/shop/").unwrap();
    assert!(plain.take_directives(Vec::new()));
    assert_eq!(
        plain.requests(),
        vec![
            "https://example.com/shop/sitemap.xml".to_string(),
            "https://example.com/shop/sitemap_index.xml".to_string(),
        ]
    );
    assert_eq!(plain.into_result(0).sitemaps_found.len(), 3);

    let mut failing = parser.parse_site("example.com").unwrap();
    assert!(failing.fail_robots(&SitemapError::Network("refused".to_string())));
    assert!(failing.is_finished());
    assert!(!failing.fail_robots(&SitemapError::Network("again".to_string())));
    assert!(!failing.take_directives(advertised));
    let result = failing.into_result(7);
    assert_eq!(
        result.errors,
        vec!["Could not fetch robots.txt from https://example.com/robots.txt: refused".to_string()]
    );
    assert_eq!(result.total_requests, 1);
    assert_eq!(result.parse_time_micros, 7);
}
