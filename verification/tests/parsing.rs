use mdsite::date::{date_chars, Date};
use mdsite::page::{Page, PageError};
use mdsite::text::from_chars;

fn parse(stem: &str, md: &str) -> Page {
    Page::from_md_file(stem, md).expect("parse failed")
}

#[test]
fn dated_underscore_filename() {
    let p = parse("2024-05-01_hello", "Hi");
    assert_eq!(p.filename, "hello");
    assert_eq!(
        p.date,
        Some(Date {
            year: 2024,
            month: 5,
            day: 1
        })
    );
}

#[test]
fn dated_dash_filename() {
    let p = parse("2024-05-01-hello", "Hi");
    assert_eq!(p.filename, "hello");
    assert_eq!(
        p.date,
        Some(Date {
            year: 2024,
            month: 5,
            day: 1
        })
    );
}

#[test]
fn dated_bare_filename() {
    let p = parse("2024-05-01hello", "Hi");
    assert_eq!(p.filename, "hello");
    assert_eq!(
        p.date,
        Some(Date {
            year: 2024,
            month: 5,
            day: 1
        })
    );
}

#[test]
fn date_round_trips_to_its_text() {
    let p = parse("2024-05-01_hello", "");
    let d = p.date.expect("date missing");
    assert_eq!(from_chars(&date_chars(&d)), "2024-05-01");
}

#[test]
fn single_digit_fields_round_trip_zero_padded() {
    let p = parse("0007-01-09_x", "");
    let d = p.date.expect("date missing");
    assert_eq!(from_chars(&date_chars(&d)), "0007-01-09");
}

#[test]
fn invalid_month_is_fatal() {
    assert!(matches!(
        Page::from_md_file("2024-13-01_x", "t"),
        Err(PageError::MalformedDate)
    ));
}

#[test]
fn invalid_day_is_fatal() {
    assert!(matches!(
        Page::from_md_file("2024-02-30_x", "t"),
        Err(PageError::MalformedDate)
    ));
}

#[test]
fn leap_day_valid_only_in_leap_years() {
    let p = parse("2024-02-29_x", "t");
    assert_eq!(
        p.date,
        Some(Date {
            year: 2024,
            month: 2,
            day: 29
        })
    );
    assert!(matches!(
        Page::from_md_file("2023-02-29_x", "t"),
        Err(PageError::MalformedDate)
    ));
}

#[test]
fn undated_filename() {
    let p = parse("about-me", "Hi");
    assert_eq!(p.filename, "about-me");
    assert_eq!(p.date, None);
}

#[test]
fn no_frontmatter_body_is_trimmed_content() {
    let p = parse("a", "  \nHello *world*\n\n");
    assert!(p.frontmatter.is_none());
    assert_eq!(p.content, "Hello *world*");
}

#[test]
fn frontmatter_parsed_and_stripped() {
    let p = parse("a", "---\ntitle: Hi\nauthor: Bo\n---\n\nBody text\n");
    let fm = p.frontmatter.clone().expect("frontmatter missing");
    assert_eq!(
        fm,
        vec![
            ("author".to_string(), "Bo".to_string()),
            ("title".to_string(), "Hi".to_string())
        ]
    );
    assert_eq!(p.content, "Body text");
}

#[test]
fn frontmatter_mapping_order_independent() {
    let p1 = parse("a", "---\ntitle: Hi\nauthor: Bo\n---\nB");
    let p2 = parse("a", "---\nauthor: Bo\ntitle: Hi\n---\nB");
    assert_eq!(p1.frontmatter, p2.frontmatter);
}

#[test]
fn unterminated_frontmatter_is_fatal() {
    assert!(matches!(
        Page::from_md_file("a", "---\ntitle: Hi\nBody"),
        Err(PageError::MalformedFrontmatter)
    ));
}

#[test]
fn non_mapping_frontmatter_is_fatal() {
    assert!(matches!(
        Page::from_md_file("a", "---\n- item\n---\nx"),
        Err(PageError::MalformedFrontmatter)
    ));
}

#[test]
fn crlf_line_endings_accepted() {
    let p = parse("a", "---\r\ntitle: Hi\r\n---\r\nBody\r\n");
    let fm = p.frontmatter.clone().expect("frontmatter missing");
    assert_eq!(fm, vec![("title".to_string(), "Hi".to_string())]);
    assert_eq!(p.content, "Body");
}

#[test]
fn html_content_converts_markdown() {
    let p = parse("a", "# Title");
    let html = p.html_content();
    assert!(html.contains("<h1>"));
    assert!(html.contains("Title"));
}

#[test]
fn html_content_has_no_script() {
    let p = parse("a", "ok <script>alert('x')</script>");
    let html = p.html_content();
    assert!(html.contains("ok"));
    assert!(!html.contains("<script>"));
}
