use sitemap_parser::{
    make_absolute_url, parse_fallback, parse_sitemap_xml, SitemapDecoder, SitemapError, XmlToken,
};

#[test]
fn test_parse_urlset() {
    let xml = r#"<?xml version="1.0" encoding="UTF-8"?>
<urlset xmlns="http://www.sitemaps.org/schemas/sitemap/0.9">
  <url>
    <loc>https://example.com/page1</loc>
    <lastmod>2023-01-01</lastmod>
  </url>
  <url>
    <loc>https://example.com/page2</loc>
    <lastmod>2023-01-02</lastmod>
  </url>
</urlset>"#;

    let result = parse_sitemap_xml(xml, "https://example.com").unwrap();
    assert_eq!(result.urls.len(), 2);
    assert!(result.urls.contains("https://example.com/page1"));
    assert!(result.urls.contains("https://example.com/page2"));
    assert!(result.nested_sitemaps.is_empty());
}

#[test]
fn test_parse_sitemapindex() {
    let xml = r#"<?xml version="1.0" encoding="UTF-8"?>
<sitemapindex xmlns="http://www.sitemaps.org/schemas/sitemap/0.9">
  <sitemap>
    <loc>https://example.com/sitemap1.xml</loc>
    <lastmod>2023-01-01</lastmod>
  </sitemap>
  <sitemap>
    <loc>/sitemap2.xml</loc>
    <lastmod>2023-01-02</lastmod>
  </sitemap>
</sitemapindex>"#;

    let result = parse_sitemap_xml(xml, "https://example.com").unwrap();
    assert!(result.urls.is_empty());
    assert_eq!(result.nested_sitemaps.len(), 2);
    assert!(result.nested_sitemaps.contains(&"https://example.com/sitemap1.xml".to_string()));
    assert!(result.nested_sitemaps.contains(&"https://example.com/sitemap2.xml".to_string()));
}

#[test]
fn test_make_absolute_url() {
    assert_eq!(
        make_absolute_url("https://example.com/page", "https://base.com").unwrap(),
        "https://example.com/page"
    );

    assert_eq!(
        make_absolute_url("/relative", "https://example.com").unwrap(),
        "https://example.com/relative"
    );

    assert_eq!(
        make_absolute_url("relative", "https://example.com/").unwrap(),
        "https://example.com/relative"
    );
}

#[test]
fn test_parse_malformed_xml() {
    let xml = r#"<loc>https://example.com/page1</loc>
<loc>https://example.com/page2</loc>"#;

    let result = parse_sitemap_xml(xml, "https://example.com").unwrap();
    assert_eq!(result.urls.len(), 2);
}

#[test]
fn malformed_xml_gives_each_url_in_order() {
    let xml = "<loc>https://example.com/page1</loc>\n<loc> https://example.com/page2 </loc><loc></loc><loc>   </loc>";
    let result = parse_sitemap_xml(xml, "https://example.com").unwrap();
    assert_eq!(
        result.urls.to_vec(),
        vec![
            "https://example.com/page1".to_string(),
            "https://example.com/page2".to_string(),
        ]
    );
    assert!(result.nested_sitemaps.is_empty());
}

#[test]
fn absolute_url_with_a_base_that_is_no_url() {
    assert_eq!(make_absolute_url("/a.xml", "example.com/").unwrap(), "example.com/a.xml");
    assert_eq!(make_absolute_url("a.xml", "example.com///").unwrap(), "example.com/a.xml");
    assert_eq!(make_absolute_url("a.xml", "").unwrap(), "/a.xml");
    assert_eq!(make_absolute_url("http://x.org/", "").unwrap(), "http://x.org/");
}

#[test]
fn absolute_url_resolves_dots_and_other_schemes() {
    assert_eq!(
        make_absolute_url("../b.xml", "https://example.com/x/y/z.xml").unwrap(),
        "https://example.com/x/b.xml"
    );
    assert_eq!(
        make_absolute_url("ftp://files.example.com/a.xml", "https://example.com").unwrap(),
        "ftp://files.example.com/a.xml"
    );
    assert_eq!(
        make_absolute_url("//cdn.example.com/a.xml", "https://example.com").unwrap(),
        "https://cdn.example.com/a.xml"
    );
}

#[test]
fn absolute_url_that_cannot_be_resolved() {
    match make_absolute_url("a.xml", "mailto:someone@example.com") {
        Err(SitemapError::InvalidUrl(message)) => {
            assert_eq!(message, "relative URL with a cannot-be-a-base base");
        }
        other => panic!("unexpected: {:?}", other),
    }
    let error = make_absolute_url("//exa mple.com/", "https://example.com").unwrap_err();
    assert!(matches!(error, SitemapError::InvalidUrl(_)));
    assert!(!error.is_retryable());
    assert!(!error.message().is_empty());
}

#[test]
fn urlset_with_many_entries_and_a_duplicate() {
    let mut xml = String::from("<urlset>");
    for i in 0..50 {
        xml.push_str(&format!("<url><loc>https://example.com/p{}</loc></url>", i));
    }
    xml.push_str("<url><loc>https://example.com/p7</loc></url></urlset>");
    let result = parse_sitemap_xml(&xml, "https://example.com").unwrap();
    assert_eq!(result.urls.len(), 50);
    assert!(result.nested_sitemaps.is_empty());
    let listed = result.urls.to_vec();
    for i in 0..50 {
        assert_eq!(listed[i], format!("https://example.com/p{}", i));
    }
}

#[test]
fn sitemapindex_references_are_absolute_and_ordered() {
    let xml = "<sitemapindex><sitemap><loc>/b.xml</loc></sitemap><sitemap><loc>a.xml</loc></sitemap><sitemap><loc>/b.xml</loc></sitemap></sitemapindex>";
    let result = parse_sitemap_xml(xml, "https://example.com/maps/index.xml").unwrap();
    assert!(result.urls.is_empty());
    assert_eq!(
        result.nested_sitemaps,
        vec![
            "https://example.com/b.xml".to_string(),
            "https://example.com/maps/a.xml".to_string(),
            "https://example.com/b.xml".to_string(),
        ]
    );
}

#[test]
fn image_locations_are_left_out() {
    let xml = r#"<?xml version="1.0" encoding="UTF-8"?>
<urlset xmlns="http://www.sitemaps.org/schemas/sitemap/0.9"
        xmlns:image="http://www.google.com/schemas/sitemap-image/1.1">
  <url>
    <loc>https://example.com/page</loc>
    <image:image>
      <image:loc>https://example.com/picture.jpg</image:loc>
    </image:image>
  </url>
  <url>
    <image:image>
      <image:loc>https://example.com/other.jpg</image:loc>
    </image:image>
    <loc>https://example.com/second</loc>
  </url>
</urlset>"#;
    let result = parse_sitemap_xml(xml, "https://example.com").unwrap();
    assert_eq!(
        result.urls.to_vec(),
        vec!["https://example.com/page".to_string(), "https://example.com/second".to_string()]
    );
    assert!(!result.urls.contains("https://example.com/picture.jpg"));
    assert!(!result.urls.contains("https://example.com/other.jpg"));
    assert!(result.nested_sitemaps.is_empty());
}

#[test]
fn prefixed_elements_decode_like_plain_ones() {
    let plain = "<urlset><url><loc>https://example.com/a</loc></url></urlset>";
    let prefixed = "<sm:urlset xmlns:sm=\"http://www.sitemaps.org/schemas/sitemap/0.9\"><sm:url><sm:loc>https://example.com/a</sm:loc></sm:url></sm:urlset>";
    let a = parse_sitemap_xml(plain, "https://example.com").unwrap();
    let b = parse_sitemap_xml(prefixed, "https://example.com").unwrap();
    assert_eq!(a.urls.to_vec(), vec!["https://example.com/a".to_string()]);
    assert_eq!(a.urls.to_vec(), b.urls.to_vec());
}

#[test]
fn text_and_cdata_are_taken_as_written() {
    let xml = "<urlset><url><loc>\n  https://example.com/a?x=1&amp;y=2\n</loc></url><url><loc><![CDATA[https://example.com/b?x=1&y=2]]></loc></url><url><loc>https://example.com/<![CDATA[c]]>d</loc></url></urlset>";
    let result = parse_sitemap_xml(xml, "https://example.com").unwrap();
    assert_eq!(
        result.urls.to_vec(),
        vec![
            "https://example.com/a?x=1&amp;y=2".to_string(),
            "https://example.com/b?x=1&y=2".to_string(),
            "https://example.com/cd".to_string(),
        ]
    );
}

#[test]
fn locations_outside_url_and_sitemap_are_dropped() {
    let xml = "<urlset><url><loc>https://example.com/a</loc></url><loc>https://example.com/stray</loc><url><loc/></url><url><loc>  </loc></url></urlset>";
    let result = parse_sitemap_xml(xml, "https://example.com").unwrap();
    assert_eq!(result.urls.to_vec(), vec!["https://example.com/a".to_string()]);
}

#[test]
fn a_reference_that_cannot_be_resolved_fails_the_document() {
    let xml = "<sitemapindex><sitemap><loc>a.xml</loc></sitemap></sitemapindex>";
    let error = match parse_sitemap_xml(xml, "mailto:someone@example.com") {
        Err(e) => e,
        Ok(_) => panic!("expected a failure"),
    };
    assert!(matches!(error, SitemapError::InvalidUrl(_)));
    let content = "<url><loc>b</loc></url>";
    assert!(parse_sitemap_xml(content, "mailto:someone@example.com").is_ok());
}

#[test]
fn empty_and_unreadable_documents_give_nothing() {
    for text in ["", "   ", "no markup at all", "<urlset></urlset>", "<urlset><url><loc>x"] {
        let result = parse_sitemap_xml(text, "https://example.com").unwrap();
        assert!(result.urls.is_empty(), "{:?}", text);
        assert!(result.nested_sitemaps.is_empty(), "{:?}", text);
        assert!(result.is_empty());
    }
}

#[test]
fn truncated_document_keeps_what_was_read() {
    let xml = "<urlset><url><loc>https://example.com/a</loc></url><url><loc>https://example.com/b</loc></ur";
    let result = parse_sitemap_xml(xml, "https://example.com").unwrap();
    assert_eq!(
        result.urls.to_vec(),
        vec!["https://example.com/a".to_string(), "https://example.com/b".to_string()]
    );
}

#[test]
fn document_without_structure_is_read_by_the_lenient_scan() {
    let xml = "<urlset><loc>https://example.com/a</loc><sitemap attr=<loc>/s.xml</loc><url";
    let result = parse_sitemap_xml(xml, "https://example.com").unwrap();
    assert_eq!(result.urls.to_vec(), vec!["https://example.com/a".to_string()]);
    assert_eq!(result.nested_sitemaps, vec!["https://example.com/s.xml".to_string()]);
}

#[test]
fn lenient_scan_tells_sitemaps_by_the_window_before() {
    let text = "<sitemapindex><sitemap><loc>/one.xml</loc></sitemap><sitemap><loc>https://example.com/two.xml</loc>";
    let result = parse_fallback(text, "https://example.com").unwrap();
    assert_eq!(result.nested_sitemaps, vec!["https://example.com/one.xml".to_string()]);
    assert_eq!(result.urls.to_vec(), vec!["https://example.com/two.xml".to_string()]);

    let index = "<sitemapindex><loc>/one.xml</loc>";
    let result = parse_fallback(index, "https://example.com").unwrap();
    assert_eq!(result.nested_sitemaps, vec!["https://example.com/one.xml".to_string()]);
    assert!(result.urls.is_empty());

    let closed = "<sitemap></sitemap><loc>https://example.com/page</loc>";
    let result = parse_fallback(closed, "https://example.com").unwrap();
    assert_eq!(result.urls.to_vec(), vec!["https://example.com/page".to_string()]);
    assert!(result.nested_sitemaps.is_empty());
}

#[test]
fn lenient_scan_window_is_a_hundred_characters() {
    let near = format!("<sitemap>{}<loc>/a.xml</loc>", " ".repeat(91));
    let result = parse_fallback(&near, "https://example.com").unwrap();
    assert_eq!(result.nested_sitemaps, vec!["https://example.com/a.xml".to_string()]);
    assert!(result.urls.is_empty());

    let far = format!("<sitemap>{}<loc>/a.xml</loc>", " ".repeat(92));
    let result = parse_fallback(&far, "https://example.com").unwrap();
    assert!(result.nested_sitemaps.is_empty());
    assert_eq!(result.urls.to_vec(), vec!["/a.xml".to_string()]);

    let wide = format!("<sitemap>{}<loc>/a.xml</loc>", "\u{e9}".repeat(91));
    let result = parse_fallback(&wide, "https://example.com").unwrap();
    assert_eq!(result.nested_sitemaps, vec!["https://example.com/a.xml".to_string()]);
}

#[test]
fn lenient_scan_stops_at_an_unclosed_location() {
    let text = "<loc>https://example.com/a</loc><loc>https://example.com/b";
    let result = parse_fallback(text, "https://example.com").unwrap();
    assert_eq!(result.urls.to_vec(), vec!["https://example.com/a".to_string()]);
    let nested = "<loc>a<loc>b</loc>c</loc>";
    let result = parse_fallback(nested, "https://example.com").unwrap();
    assert_eq!(result.urls.to_vec(), vec!["a<loc>b".to_string()]);
}

#[test]
fn lenient_scan_fails_on_a_reference_that_cannot_be_resolved() {
    let text = "<loc>page</loc><sitemap><loc>a.xml</loc>";
    let error = match parse_fallback(text, "mailto:someone@example.com") {
        Err(e) => e,
        Ok(_) => panic!("expected a failure"),
    };
    assert!(matches!(error, SitemapError::InvalidUrl(_)));
}

#[test]
fn decoder_takes_tokens_one_by_one() {
    let mut decoder = SitemapDecoder::new();
    let tokens = vec![
        XmlToken::Other,
        XmlToken::Open("urlset".to_string()),
        XmlToken::Open("url".to_string()),
        XmlToken::Open("loc".to_string()),
        XmlToken::Text(" https://example.com/".to_string()),
        XmlToken::CData("a ".to_string()),
        XmlToken::Close("loc".to_string()),
        XmlToken::Open("image".to_string()),
        XmlToken::Open("loc".to_string()),
        XmlToken::Text("https://example.com/a.png".to_string()),
        XmlToken::Close("loc".to_string()),
        XmlToken::Close("image".to_string()),
        XmlToken::Close("url".to_string()),
        XmlToken::Open("sitemap".to_string()),
        XmlToken::Open("loc".to_string()),
        XmlToken::Text("/nested.xml".to_string()),
        XmlToken::Close("loc".to_string()),
        XmlToken::Close("sitemap".to_string()),
        XmlToken::Text("stray".to_string()),
        XmlToken::Close("loc".to_string()),
        XmlToken::End,
        XmlToken::Close("urlset".to_string()),
    ];
    for token in &tokens {
        decoder.feed(token, "https://example.com").unwrap();
    }
    let result = decoder.into_result();
    assert_eq!(result.urls.to_vec(), vec!["https://example.com/a".to_string()]);
    assert_eq!(result.nested_sitemaps, vec!["https://example.com/nested.xml".to_string()]);
}

#[test]
fn decoder_stays_as_it_was_on_a_failure() {
    let mut decoder = SitemapDecoder::new();
    let base = "mailto:someone@example.com";
    decoder.feed(&XmlToken::Open("sitemap".to_string()), base).unwrap();
    decoder.feed(&XmlToken::Open("loc".to_string()), base).unwrap();
    decoder.feed(&XmlToken::Text("a.xml".to_string()), base).unwrap();
    assert!(decoder.feed(&XmlToken::Close("loc".to_string()), base).is_err());
    decoder.feed(&XmlToken::Close("sitemap".to_string()), base).unwrap();
    decoder.feed(&XmlToken::Open("url".to_string()), base).unwrap();
    decoder.feed(&XmlToken::Close("loc".to_string()), base).unwrap();
    let result = decoder.finish("", base).unwrap();
    assert_eq!(result.urls.to_vec(), vec!["a.xml".to_string()]);
    assert!(result.nested_sitemaps.is_empty());
}

#[test]
fn decoder_without_findings_falls_back_to_the_text() {
    let decoder = SitemapDecoder::new();
    let result = decoder.finish("<loc>https://example.com/x</loc>", "https://example.com").unwrap();
    assert_eq!(result.urls.to_vec(), vec!["https://example.com/x".to_string()]);
}
