use fx::data::cleanup_content;
use fx::data::Post;
use fx::date::Date;
use fx::date::DateTime;
use fx::html::add_post_form;
use fx::html::border_style;
use fx::html::edit_post_buttons;
use fx::html::edit_post_form;
use fx::html::escape_single_quote;
use fx::html::has_code;
use fx::html::contains_language;
use fx::html::highlight_head;
use fx::html::htmx;
use fx::html::katex_head;
use fx::html::login;
use fx::html::minify;
use fx::html::set_header_id;
use fx::html::show_date;
use fx::html::PageSettings;
use fx::html::ToHtml;
use fx::html::Top;

fn dt(year: i32, month: u32, day: u32, hour: u32, minute: u32, second: u32) -> DateTime {
    DateTime { date: Date { year, month, day }, hour, minute, second }
}

#[test]
fn test_set_header_id() {
    let html = "<h1>Hello</h1>\n<h2>Bar baz</h2>\n<h3 id='quux'>Quux</h3>\n\n";
    let actual = set_header_id(html);
    println!("actual:\n{}", actual);
    let expected = "<h1 id='hello'>Hello</h1>\n<h2 id='bar-baz'>Bar baz</h2>\n<h3 id='quux'>Quux</h3>\n\n";
    assert_eq!(actual.trim(), expected.trim());

    let html = "<pre><code>function f(x)\n    println(1)\nend\n</code></pre>";
    assert_eq!(html, set_header_id(html), "code block has changed");

    let html = "<hr />";
    assert!(!set_header_id(html).is_empty());
}

#[test]
fn test_minify() {
    let page = "  <pre><code class=\"language-rust\">x = 1;\n\nprintln!(\"{x}\");\n</code></pre>\n";
    let expected = "<pre><code class=\"language-rust\">x = 1;\n\nprintln!(\"{x}\");\n</code></pre>";
    assert_eq!(minify(page), expected);

    let page = "<textarea id='about'>\nx = 1;\n\nprintln!(\"{x}\");\n</textarea>\n";
    assert!(minify(page).contains("x = 1;\n\nprintln!"));
}

#[test]
fn test_has_code() {
    let body = "<code class=\"language-math\">\nx = 1\n</code>\n";
    assert!(!has_code(body));
    let body = "<code class=\"language-rust\">\nx = 1\n</code>\n";
    assert!(has_code(body));
}

#[test]
fn minify_trims_and_drops_blank_lines() {
    assert_eq!(minify("  <p>a</p>  \n\n   \n  <p>b</p>\n"), "<p>a</p>\n<p>b</p>");
    assert_eq!(minify(""), "");
}

#[test]
fn escape_single_quote_replaces_each_quote() {
    assert_eq!(escape_single_quote("John's 'Weblog'"), "John&#39;s &#39;Weblog&#39;");
    assert_eq!(escape_single_quote("no quotes"), "no quotes");
    assert_eq!(escape_single_quote(""), "");
}

#[test]
fn border_style_carries_width() {
    assert_eq!(
        border_style(2),
        "border-bottom: 2px solid var(--border); border-radius: 0px;"
    );
    assert_eq!(
        border_style(10),
        "border-bottom: 10px solid var(--border); border-radius: 0px;"
    );
}

#[test]
fn show_date_buckets_by_age() {
    let now = dt(2025, 6, 15, 12, 0, 0);
    assert_eq!(show_date(&now, &dt(2025, 6, 15, 12, 0, 0)), "just now");
    assert_eq!(show_date(&now, &dt(2025, 6, 15, 11, 59, 30)), "just now");
    assert_eq!(show_date(&now, &dt(2025, 6, 15, 11, 59, 0)), "1 minute ago");
    assert_eq!(show_date(&now, &dt(2025, 6, 15, 11, 15, 0)), "45 minutes ago");
    assert_eq!(show_date(&now, &dt(2025, 6, 15, 11, 0, 0)), "1 hour ago");
    assert_eq!(show_date(&now, &dt(2025, 6, 15, 1, 0, 0)), "11 hours ago");
    assert_eq!(show_date(&now, &dt(2025, 6, 14, 12, 0, 0)), "2025-06-14");
    // A timestamp in the future is shown as its date.
    assert_eq!(show_date(&now, &dt(2025, 6, 16, 12, 0, 0)), "2025-06-16");
}

#[test]
fn katex_head_only_with_math() {
    assert_eq!(katex_head("<p>plain</p>"), "");
    let with_math = "<code class=\"language-math\">x</code>";
    assert!(katex_head(with_math).contains("katex.min.js"));
}

#[test]
fn highlight_head_only_with_code() {
    assert_eq!(highlight_head("<p>plain</p>"), "");
    let rust = "<code class=\"language-rust\">x</code>";
    let head = highlight_head(rust);
    assert!(head.contains("highlight.min.js"));
    assert!(!head.contains("julia.min.js"));
    let julia = "<code class=\"language-julia\">x</code>";
    let head = highlight_head(julia);
    assert!(head.contains("julia.min.js"));
    assert!(contains_language(julia, "julia"));
    assert!(!contains_language(julia, "rust"));
}

#[test]
fn login_page_has_the_form() {
    let page = login();
    assert!(page.contains("<!DOCTYPE html>"));
    assert!(page.contains("login - fx"));
    assert!(page.contains("name=\"username\""));
    assert!(page.contains("name=\"password\""));
}

#[test]
fn page_settings_keeps_fields() {
    let settings = PageSettings::new("title", Some(true), false, Top::GoHome, "<meta>");
    assert_eq!(settings.title, "title");
    assert_eq!(settings.is_logged_in, Some(true));
    assert!(!settings.show_about);
    assert_eq!(settings.extra_head, "<meta>");
}

#[test]
fn post_forms_carry_the_post() {
    let post = Post {
        id: 7,
        created: dt(2025, 1, 1, 0, 0, 0),
        updated: dt(2025, 1, 2, 0, 0, 0),
        content: "# Title".to_string(),
    };
    let buttons = edit_post_buttons(&post);
    assert!(buttons.contains("/posts/edit/7"));
    assert!(buttons.contains("/posts/delete/7"));
    let form = edit_post_form(&post);
    assert!(form.contains("/posts/edit/7"));
    assert!(form.contains("# Title"));
    assert!(add_post_form().contains("/posts/add"));
    assert!(htmx().contains("htmx.org"));
}

#[test]
fn post_to_html_shows_content_and_link() {
    let post = Post {
        id: 3,
        created: dt(2025, 1, 1, 8, 30, 0),
        updated: dt(2025, 1, 1, 8, 30, 0),
        content: "lorem ipsum".to_string(),
    };
    let html = post.to_html();
    assert!(html.contains("2025-01-01 08:30:00 UTC"));
    assert!(html.contains("href='/p/3'"));
    assert!(html.contains("lorem ipsum"));
}

#[test]
fn decimal_text_handles_the_edges() {
    assert_eq!(fx::html::u64_string(0), "0");
    assert_eq!(fx::html::u64_string(10), "10");
    assert_eq!(fx::html::u64_string(u64::MAX), "18446744073709551615");
    assert_eq!(fx::html::i64_string(-5), "-5");
    assert_eq!(fx::html::i64_string(0), "0");
    assert_eq!(fx::html::i64_string(i64::MIN), "-9223372036854775808");
}

#[test]
fn cleanup_content_trims_lines_and_ends_with_newline() {
    assert_eq!(cleanup_content("a  \nb\t\n\n\n"), "a\nb\n");
    assert_eq!(cleanup_content("\n\n  hello  "), "hello\n");
    assert_eq!(cleanup_content(""), "\n");
    assert_eq!(cleanup_content("a\r\nb\r\n"), "a\nb\n");
    assert_eq!(cleanup_content("keep  inner   spaces"), "keep  inner   spaces\n");
}
