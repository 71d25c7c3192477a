use sitemap_parser::parse_robots_txt;

#[test]
fn test_parse_robots_txt() {
    let content = r#"User-agent: *
Disallow: /private/

Sitemap: https://example.com/sitemap.xml
Sitemap: /relative-sitemap.xml

# More rules
Allow: /public/"#;

    let base_url = "https://example.com";
    let sitemaps = parse_robots_txt(content, base_url);

    assert_eq!(sitemaps.len(), 2);
    assert!(sitemaps.contains(&"https://example.com/sitemap.xml".to_string()));
    assert!(sitemaps.contains(&"https://example.com/relative-sitemap.xml".to_string()));
}

#[test]
fn test_parse_robots_txt_case_insensitive() {
    let content = "SITEMAP: https://example.com/sitemap.xml\nsitemap: /another.xml";
    let base_url = "https://example.com";
    let sitemaps = parse_robots_txt(content, base_url);

    assert_eq!(sitemaps.len(), 2);
    assert!(sitemaps.contains(&"https://example.com/sitemap.xml".to_string()));
    assert!(sitemaps.contains(&"https://example.com/another.xml".to_string()));
}

#[test]
fn test_parse_robots_txt_empty() {
    let content = "User-agent: *\nDisallow: /";
    let base_url = "https://example.com";
    let sitemaps = parse_robots_txt(content, base_url);

    assert!(sitemaps.is_empty());
}

#[test]
fn robots_directives_keep_order_and_duplicates() {
    let content = "Sitemap: https://example.com/sitemap.xml\nSitemap: /other.xml";
    let sitemaps = parse_robots_txt(content, "https://example.com");
    assert_eq!(
        sitemaps,
        vec![
            "https://example.com/sitemap.xml".to_string(),
            "https://example.com/other.xml".to_string(),
        ]
    );

    let twice = "Sitemap: /a.xml\nsitemap: /b.xml\nSITEMAP: /a.xml\n";
    assert_eq!(
        parse_robots_txt(twice, "https://example.com"),
        vec![
            "https://example.com/a.xml".to_string(),
            "https://example.com/b.xml".to_string(),
            "https://example.com/a.xml".to_string(),
        ]
    );
}

#[test]
fn robots_mixed_case_key_and_surrounding_space() {
    let content = "  \t SiTeMaP:\t  https://example.com/s.xml  \r\nsitemap:https://example.com/t.xml\r\n";
    assert_eq!(
        parse_robots_txt(content, "https://example.com"),
        vec![
            "https://example.com/s.xml".to_string(),
            "https://example.com/t.xml".to_string(),
        ]
    );
}

#[test]
fn robots_lines_that_are_no_directive() {
    assert!(parse_robots_txt("", "https://example.com").is_empty());
    assert!(parse_robots_txt("\n\n\n", "https://example.com").is_empty());
    assert!(parse_robots_txt("Sitemap:", "https://example.com").is_empty());
    assert!(parse_robots_txt("Sitemap:   \n", "https://example.com").is_empty());
    assert!(parse_robots_txt("Sitemap /a.xml", "https://example.com").is_empty());
    assert!(parse_robots_txt("# Sitemap: /a.xml", "https://example.com").is_empty());
    assert!(parse_robots_txt("Sitemaps: /a.xml", "https://example.com").is_empty());
    assert!(parse_robots_txt("S\u{130}temap: /a.xml", "https://example.com").is_empty());
}

#[test]
fn robots_relative_values() {
    assert_eq!(
        parse_robots_txt("Sitemap: maps/a.xml", "https://example.com/dir/"),
        vec!["https://example.com/dir/maps/a.xml".to_string()]
    );
    assert_eq!(
        parse_robots_txt("Sitemap: /a.xml", "https://example.com/dir/page"),
        vec!["https://example.com/a.xml".to_string()]
    );
}

#[test]
fn robots_with_a_base_that_is_no_url() {
    assert_eq!(
        parse_robots_txt("Sitemap: /a.xml", "not a url"),
        vec!["/a.xml".to_string()]
    );
    assert_eq!(
        parse_robots_txt("Sitemap: a.xml", "example.com//"),
        vec!["example.com/a.xml".to_string()]
    );
    assert_eq!(
        parse_robots_txt("Sitemap: http://other.org/a.xml", "not a url"),
        vec!["http://other.org/a.xml".to_string()]
    );
}

#[test]
fn robots_unicode_white_space_is_trimmed() {
    let content = "\u{a0}Sitemap:\u{2003}https://example.com/a.xml\u{3000}";
    assert_eq!(
        parse_robots_txt(content, "https://example.com"),
        vec!["https://example.com/a.xml".to_string()]
    );
}

fn directive_values_by_std(content: &str) -> Vec<String> {
    let mut values = Vec::new();
    for line in content.lines() {
        let line = line.trim();
        if line.to_lowercase().starts_with("sitemap:") {
            if let Some(value) = line.get(8..).map(|s| s.trim()) {
                if !value.is_empty() {
                    values.push(value.to_string());
                }
            }
        }
    }
    values
}

#[test]
fn the_key_is_told_as_unicode_lowercasing_tells_it() {
    let key = "sitemap:";
    let mut content = String::new();
    let mut count = 0;
    for code in 0..=0x10FFFFu32 {
        let c = match char::from_u32(code) {
            Some(c) => c,
            None => continue,
        };
        let lowered: String = c.to_lowercase().collect();
        let touches_key = lowered.chars().any(|l| key.contains(l));
        if !(touches_key || c.is_whitespace() || code < 0x250) {
            continue;
        }
        for position in 0..key.len() {
            let mut line = String::new();
            line.push_str(&key[..position]);
            line.push(c);
            line.push_str(&key[position + 1..]);
            line.push_str(&format!(" http://example.com/{:x}/{}\n", code, position));
            content.push_str(&line);
            count += 1;
        }
        content.push_str(&format!("{}sitemap:{}http://example.com/{:x}{}\r\n", c, c, code, c));
        if c != ':' {
            content.push_str(&format!("Sitemap{}: http://example.com/{:x}\n", c, code));
        }
    }
    assert!(count > 4000);
    let expected = directive_values_by_std(&content);
    assert!(expected.len() > 16);
    assert_eq!(parse_robots_txt(&content, "no base"), expected);
}
