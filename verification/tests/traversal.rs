use sitemap_parser::{SitemapError, SitemapParseResult, Traversal};

fn text(s: &str) -> String {
    s.to_string()
}

fn document(urls: &[&str], nested: &[&str]) -> Result<SitemapParseResult, SitemapError> {
    let mut found = SitemapParseResult::default();
    for url in urls {
        found.insert_page(url.to_string());
    }
    for url in nested {
        found.push_sitemap(url.to_string());
    }
    Ok(found)
}

fn pending_urls(traversal: &Traversal) -> Vec<(String, usize)> {
    traversal.pending().iter().map(|t| (t.url.clone(), t.depth)).collect()
}

#[test]
fn depth_zero_fetches_nothing() {
    let mut traversal = Traversal::new(5);
    let sitemap = "https://example.com/sitemap.xml";
    traversal.schedule(text(sitemap), text("https://example.com"), 0);
    assert!(traversal.is_finished());
    assert!(traversal.pending().is_empty());
    assert_eq!(traversal.total_requests(), 0);
    assert!(traversal.urls().is_empty());
    assert!(traversal.errors().is_empty());

    traversal.schedule_once(text(sitemap), text("https://example.com"), 0);
    assert!(traversal.is_finished());
    assert_eq!(traversal.total_requests(), 0);
    assert!(traversal.visited().is_empty());
}

#[test]
fn a_scheduled_sitemap_is_one_request() {
    let mut traversal = Traversal::new(5);
    traversal.schedule(text("https://example.com/a.xml"), text("https://example.com"), 2);
    traversal.schedule(text("https://example.com/b.xml"), text("https://example.org"), 3);
    assert!(!traversal.is_finished());
    assert_eq!(traversal.total_requests(), 2);
    let tasks = traversal.pending();
    assert_eq!(tasks.len(), 2);
    assert_eq!(tasks[0].url, "https://example.com/a.xml");
    assert_eq!(tasks[0].base_url, "https://example.com");
    assert_eq!(tasks[0].depth, 2);
    assert!(!tasks[0].guarded);
    assert_eq!(tasks[1].base_url, "https://example.org");
    assert_eq!(tasks[1].depth, 3);
}

#[test]
fn only_the_first_nested_sitemaps_are_followed() {
    let mut traversal = Traversal::new(2);
    traversal.schedule(text("https://example.com/index.xml"), text("https://example.com"), 3);
    let outcomes = vec![document(
        &["https://example.com/page"],
        &[
            "https://example.com/1.xml",
            "https://example.com/2.xml",
            "https://example.com/3.xml",
            "https://example.com/4.xml",
            "https://example.com/5.xml",
        ],
    )];
    assert!(traversal.absorb(&outcomes));
    assert_eq!(
        pending_urls(&traversal),
        vec![(text("https://example.com/1.xml"), 2), (text("https://example.com/2.xml"), 2)]
    );
    assert_eq!(traversal.pending()[0].base_url, "https://example.com");
    assert_eq!(traversal.total_requests(), 3);
    assert_eq!(traversal.urls().to_vec(), vec![text("https://example.com/page")]);
}

#[test]
fn fewer_nested_sitemaps_than_the_bound_are_all_followed() {
    let mut traversal = Traversal::new(5);
    traversal.schedule(text("i"), text("b"), 2);
    assert!(traversal.absorb(&vec![document(&[], &["x", "y", "x"])]));
    assert_eq!(
        pending_urls(&traversal),
        vec![(text("x"), 1), (text("y"), 1), (text("x"), 1)]
    );
    assert_eq!(traversal.total_requests(), 4);

    let mut none = Traversal::new(0);
    none.schedule(text("i"), text("b"), 2);
    assert!(none.absorb(&vec![document(&["p"], &["x", "y"])]));
    assert!(none.is_finished());
    assert_eq!(none.total_requests(), 1);
}

#[test]
fn the_last_level_follows_nothing() {
    let mut traversal = Traversal::new(5);
    traversal.schedule(text("https://example.com/index.xml"), text("https://example.com"), 1);
    let outcomes = vec![document(&["https://example.com/page"], &["https://example.com/1.xml"])];
    assert!(traversal.absorb(&outcomes));
    assert!(traversal.is_finished());
    assert_eq!(traversal.total_requests(), 1);
    assert_eq!(traversal.urls().len(), 1);
}

#[test]
fn a_failure_is_recorded_and_does_not_stop_the_others() {
    let mut traversal = Traversal::new(5);
    traversal.schedule(text("a"), text("b"), 2);
    traversal.schedule(text("c"), text("b"), 2);
    traversal.schedule(text("d"), text("b"), 2);
    let outcomes = vec![
        document(&["p1"], &[]),
        Err(SitemapError::Network(text("HTTP 404 Not Found for c"))),
        document(&["p2", "p1"], &["n"]),
    ];
    assert!(traversal.absorb(&outcomes));
    assert_eq!(traversal.urls().to_vec(), vec![text("p1"), text("p2")]);
    assert_eq!(
        traversal.errors(),
        &vec![text("Error processing sitemap: HTTP 404 Not Found for c")]
    );
    assert_eq!(traversal.total_requests(), 4);
    assert_eq!(pending_urls(&traversal), vec![(text("n"), 1)]);

    assert!(traversal.absorb(&vec![Err(SitemapError::InvalidUrl(text("empty host")))]));
    assert!(traversal.is_finished());
    assert_eq!(traversal.errors().len(), 2);
    assert_eq!(traversal.errors()[1], "Error processing sitemap: empty host");
    assert_eq!(traversal.urls().len(), 2);
    let (urls, errors, requests) = traversal.into_parts();
    assert_eq!(urls.len(), 2);
    assert_eq!(errors.len(), 2);
    assert_eq!(requests, 4);
}

#[test]
fn outcomes_must_match_the_pending_level() {
    let mut traversal = Traversal::new(5);
    traversal.schedule(text("a"), text("b"), 2);
    assert!(!traversal.absorb(&vec![]));
    assert!(!traversal.absorb(&vec![document(&["p"], &[]), document(&["q"], &[])]));
    assert!(!traversal.advance(&vec![]));
    assert_eq!(traversal.pending().len(), 1);
    assert!(traversal.urls().is_empty());
    assert_eq!(traversal.total_requests(), 1);
    assert!(traversal.absorb(&vec![document(&["p"], &[])]));
    assert!(traversal.is_finished());
    assert!(traversal.absorb(&vec![]));
    assert!(!traversal.absorb(&vec![document(&["p"], &[])]));
}

#[test]
fn fetched_documents_are_decoded_against_the_base_of_their_task() {
    let mut traversal = Traversal::new(1);
    traversal.schedule(text("https://a.example/index.xml"), text("https://a.example"), 2);
    traversal.schedule(text("https://b.example/index.xml"), text("https://b.example/maps/"), 2);
    traversal.schedule(text("https://c.example/index.xml"), text("https://c.example"), 2);
    let index = "<sitemapindex><sitemap><loc>one.xml</loc></sitemap>\
                 <sitemap><loc>two.xml</loc></sitemap></sitemapindex>";
    let fetched = vec![
        Ok(index.to_string()),
        Ok(index.to_string()),
        Err(SitemapError::Network(text("timed out"))),
    ];
    assert!(traversal.advance(&fetched));
    assert_eq!(
        pending_urls(&traversal),
        vec![
            (text("https://a.example/one.xml"), 1),
            (text("https://b.example/maps/one.xml"), 1),
        ]
    );
    assert_eq!(traversal.pending()[1].base_url, "https://b.example/maps/");
    assert_eq!(traversal.errors(), &vec![text("Error processing sitemap: timed out")]);
    assert_eq!(traversal.total_requests(), 5);

    let pages = "<urlset><url><loc>https://a.example/p</loc></url></urlset>";
    let deeper = "<sitemapindex><sitemap><loc>x</loc></sitemap></sitemapindex>";
    assert!(traversal.advance(&vec![Ok(text(pages)), Ok(text(deeper))]));
    assert!(traversal.is_finished());
    assert_eq!(traversal.urls().to_vec(), vec![text("https://a.example/p")]);
    assert_eq!(traversal.total_requests(), 5);
}

#[test]
fn a_visited_sitemap_is_not_scheduled_again() {
    let mut traversal = Traversal::new(2);
    traversal.schedule_once(text("root"), text("b"), 3);
    traversal.schedule_once(text("root"), text("b"), 3);
    traversal.schedule_once(text("other"), text("b"), 3);
    assert_eq!(pending_urls(&traversal), vec![(text("root"), 3), (text("other"), 3)]);
    assert!(traversal.pending()[0].guarded);
    assert_eq!(traversal.total_requests(), 2);
    assert_eq!(traversal.visited().to_vec(), vec![text("root"), text("other")]);

    let outcomes = vec![
        document(&[], &["root", "x", "other", "x", "y", "z"]),
        document(&[], &["x", "y", "z", "w"]),
    ];
    assert!(traversal.absorb(&outcomes));
    assert_eq!(
        pending_urls(&traversal),
        vec![(text("x"), 2), (text("x"), 2), (text("y"), 2), (text("z"), 2)]
    );
    assert!(!traversal.pending()[0].guarded);
    assert_eq!(
        traversal.visited().to_vec(),
        vec![text("root"), text("other"), text("x"), text("y"), text("z")]
    );
    assert_eq!(traversal.total_requests(), 6);

    let next = vec![
        document(&[], &["root", "x"]),
        document(&[], &[]),
        document(&[], &[]),
        document(&[], &[]),
    ];
    assert!(traversal.absorb(&next));
    assert_eq!(pending_urls(&traversal), vec![(text("root"), 1), (text("x"), 1)]);
}
