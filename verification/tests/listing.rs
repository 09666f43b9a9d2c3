use mdsite::date::Date;
use mdsite::index::SectionIndexBuilder;
use mdsite::page::Page;
use mdsite::render::{PageContext, RenderError};
use mdsite::template::{resolve_template_exec, TemplateSet};

fn parse(stem: &str, md: &str) -> Page {
    Page::from_md_file(stem, md).expect("parse failed")
}

#[test]
fn landing_page_never_listed_in_own_section() {
    let mut b = SectionIndexBuilder::new();
    b.register("posts");
    b.append("posts", parse("index", "x"));
    b.append("posts", parse("2024-05-01_hello", "x"));
    let idx = b.finalize();
    assert_eq!(idx.sections.len(), 1);
    let (name, pages) = &idx.sections[0];
    assert_eq!(name, "posts");
    assert_eq!(pages.len(), 1);
    assert_eq!(pages[0].filename, "hello");
    assert_eq!(
        pages[0].date,
        Some(Date {
            year: 2024,
            month: 5,
            day: 1
        })
    );
}

#[test]
fn listing_sorted_most_recent_first_undated_last() {
    let mut b = SectionIndexBuilder::new();
    b.register("posts");
    b.append("posts", parse("2023-01-01_old", "x"));
    b.append("posts", parse("timeless", "x"));
    b.append("posts", parse("2024-06-01_new", "x"));
    let idx = b.finalize();
    let (_, pages) = &idx.sections[0];
    let order: Vec<&str> = pages.iter().map(|p| p.filename.as_str()).collect();
    assert_eq!(order, vec!["new", "old", "timeless"]);
}

#[test]
fn register_keeps_existing_pages() {
    let mut b = SectionIndexBuilder::new();
    b.register("posts");
    b.append("posts", parse("2024-05-01_hello", "x"));
    b.register("posts");
    let idx = b.finalize();
    assert_eq!(idx.sections.len(), 1);
    assert_eq!(idx.sections[0].1.len(), 1);
}

#[test]
fn append_creates_missing_section() {
    let mut b = SectionIndexBuilder::new();
    b.append("notes", parse("one", "x"));
    let idx = b.finalize();
    assert_eq!(idx.sections.len(), 1);
    assert_eq!(idx.sections[0].0, "notes");
    assert_eq!(idx.sections[0].1[0].filename, "one");
}

fn three_templates() -> TemplateSet {
    TemplateSet {
        files: vec![
            ("index.html".to_string(), "I".to_string()),
            ("page.html".to_string(), "P".to_string()),
            ("blog.html".to_string(), "B".to_string()),
        ],
    }
}

#[test]
fn index_in_blog_selects_blog_template() {
    let r = resolve_template_exec("index", "blog", &three_templates());
    assert_eq!(r, Some("B".to_string()));
}

#[test]
fn index_in_notes_falls_back_to_generic_index() {
    let r = resolve_template_exec("index", "notes", &three_templates());
    assert_eq!(r, Some("I".to_string()));
}

#[test]
fn non_index_page_uses_page_template() {
    let r = resolve_template_exec("hello", "blog", &three_templates());
    assert_eq!(r, Some("P".to_string()));
}

#[test]
fn missing_templates_resolve_to_none() {
    let empty = TemplateSet { files: vec![] };
    assert_eq!(resolve_template_exec("index", "blog", &empty), None);
    assert_eq!(resolve_template_exec("hello", "blog", &empty), None);
}

#[test]
fn render_substitutes_content() {
    let p = parse("a", "x");
    let ctx = PageContext {
        pages: vec![],
        content: "X".to_string(),
    };
    let out = p
        .render_from_template("<b>{content}</b>", &ctx)
        .expect("render failed");
    assert_eq!(out, "<b>X</b>");
}

#[test]
fn render_iterates_listing() {
    let p = parse("a", "x");
    let ctx = PageContext {
        pages: vec![(
            "posts".to_string(),
            vec![
                ("hello".to_string(), Some("2024-05-01".to_string())),
                ("timeless".to_string(), None),
            ],
        )],
        content: String::new(),
    };
    let out = p
        .render_from_template(
            "{{ for p in pages.posts }}[{p.filename}|{p.date}]{{ endfor }}",
            &ctx,
        )
        .expect("render failed");
    assert_eq!(out, "[hello|2024-05-01][timeless|]");
}

#[test]
fn render_rejects_bad_template() {
    let p = parse("a", "x");
    let ctx = PageContext {
        pages: vec![],
        content: String::new(),
    };
    assert!(matches!(
        p.render_from_template("<b>{content", &ctx),
        Err(RenderError::TemplateSyntax)
    ));
}

#[test]
fn render_rejects_undefined_reference() {
    let p = parse("a", "x");
    let ctx = PageContext {
        pages: vec![],
        content: String::new(),
    };
    assert!(matches!(
        p.render_from_template("{nope}", &ctx),
        Err(RenderError::UndefinedReference)
    ));
}
