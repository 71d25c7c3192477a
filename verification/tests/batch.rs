use sitemap_parser::{ParsedSiteResult, RustSitemapParser, SiteBatch};

#[test]
fn no_more_sites_run_than_the_limit() {
    let sites: Vec<String> = (0..7).map(|i| format!("site{}.example", i)).collect();
    let parser = RustSitemapParser::new(3, 10, 2, 5, 30);
    let mut batch = parser.parse_multiple_sites(sites.clone());
    let mut running: Vec<String> = Vec::new();
    let mut started: Vec<String> = Vec::new();
    let mut most = 0;
    let mut turn = 0;
    while !batch.is_finished() {
        while let Some(site) = batch.start_next() {
            running.push(site.clone());
            started.push(site);
            assert!(running.len() <= 3);
            assert_eq!(batch.active(), running.len());
        }
        most = most.max(running.len());
        assert!(!running.is_empty());
        let site = running.remove(turn % running.len());
        assert!(batch.complete(ParsedSiteResult::new(site)));
        turn += 1;
    }
    assert_eq!(most, 3);
    assert_eq!(started, sites);
    assert_eq!(batch.active(), 0);
    assert!(batch.start_next().is_none());
    let results = batch.into_results();
    assert_eq!(results.len(), 7);
    let mut seen: Vec<String> = results.iter().map(|r| r.base_url.clone()).collect();
    seen.sort();
    assert_eq!(seen, sites);
}

#[test]
fn a_result_without_a_running_site_is_refused() {
    let mut batch = SiteBatch::new(vec!["a".to_string()], 2);
    assert!(!batch.complete(ParsedSiteResult::new("x".to_string())));
    assert!(!batch.is_finished());
    assert_eq!(batch.start_next(), Some("a".to_string()));
    assert_eq!(batch.start_next(), None);
    assert_eq!(batch.active(), 1);
    assert!(!batch.is_finished());
    assert!(batch.complete(ParsedSiteResult::new("a".to_string())));
    assert!(batch.is_finished());
    assert!(!batch.complete(ParsedSiteResult::new("a".to_string())));
    assert_eq!(batch.into_results().len(), 1);
}

#[test]
fn an_empty_batch_is_finished_and_a_limit_of_zero_starts_nothing() {
    let mut empty = SiteBatch::new(Vec::new(), 4);
    assert!(empty.is_finished());
    assert!(empty.start_next().is_none());
    assert!(empty.into_results().is_empty());

    let mut closed = SiteBatch::new(vec!["a".to_string()], 0);
    assert!(closed.start_next().is_none());
    assert!(!closed.is_finished());
    assert_eq!(closed.active(), 0);
}
