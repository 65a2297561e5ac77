use fx::blogroll::show_item;
use fx::date::today;
use fx::date::Date;
use fx::date::DateTime;
use fx::rss::months_range;
use fx::rss::sanitize;
use fx::rss::Item;
use fx::rss::RssConfig;
use fx::rss::RssFeed;

fn item(title: Option<&str>, description: Option<&str>, link: Option<&str>) -> Item {
    Item::new(
        "Test".to_string(),
        title.map(|s| s.to_string()),
        description.map(|s| s.to_string()),
        link.map(|s| s.to_string()),
        Some(DateTime { date: Date { year: 2025, month: 1, day: 2 }, hour: 0, minute: 0, second: 0 }),
    )
}

#[test]
fn test_months_range() {
    let start = today().unwrap();
    let months = months_range(&start, 24);
    assert_eq!(months.len(), 24);
    assert_eq!(months[0].year, start.year as u32);
    assert_eq!(months.last().unwrap().year, start.year as u32 - 2);
}

#[test]
fn months_range_wraps_the_year() {
    let start = Date { year: 2025, month: 2, day: 10 };
    let months = months_range(&start, 4);
    let pairs: Vec<(u32, u32)> = months.iter().map(|m| (m.year, m.month)).collect();
    assert_eq!(pairs, vec![(2025, 2), (2025, 1), (2024, 12), (2024, 11)]);
}

#[test]
fn item_to_html_prefers_the_title() {
    let html = item(Some(" Title 1 "), None, Some("https://example.com/x")).to_html().unwrap();
    assert_eq!(html, "Test: <a href=\"https://example.com/x\">Title 1</a>");
}

#[test]
fn item_to_html_strips_tags_from_the_description() {
    let html = item(None, Some("<p>Some <b>text</b></p>"), Some("https://example.com/y"))
        .to_html()
        .unwrap();
    assert_eq!(html, "Test: <a href=\"https://example.com/y\"> Some  text  </a>");
}

#[test]
fn item_to_html_truncates_long_titles() {
    let long = "x".repeat(80);
    let html = item(Some(&long), None, Some("https://e.com")).to_html().unwrap();
    let expected_text = format!("{}...", "x".repeat(60));
    assert_eq!(html, format!("Test: <a href=\"https://e.com\">{expected_text}</a>"));
}

#[test]
fn item_to_html_needs_text_and_link() {
    assert!(item(None, None, Some("https://e.com")).to_html().is_none());
    assert!(item(Some("t"), None, None).to_html().is_none());
}

#[test]
fn show_item_lists_name_link_title_and_age() {
    let now = DateTime { date: Date { year: 2025, month: 1, day: 10 }, hour: 0, minute: 0, second: 0 };
    let it = item(Some("Title"), None, Some("https://e.com"));
    let html = show_item(&now, &it).unwrap();
    assert!(html.contains("Test: <a href=\"https://e.com\">Title</a> (2025-01-02)"));
    let undated = Item::new("Test".to_string(), Some("t".to_string()), None, Some("l".to_string()), None);
    assert!(show_item(&now, &undated).is_none());
}

#[test]
fn sanitize_returns_the_text() {
    assert_eq!(sanitize("héllo <b>x</b>"), "héllo <b>x</b>");
}

#[test]
fn rss_config_keeps_feeds() {
    let feeds = vec![RssFeed::new("https://a.example/feed.xml"), RssFeed::new("https://b.example/atom.xml")];
    let config = RssConfig::new(feeds, 24);
    assert_eq!(config.feeds.len(), 2);
    assert_eq!(config.feeds[0].url, "https://a.example/feed.xml");
    assert_eq!(config.max_age_in_months, 24);
}
