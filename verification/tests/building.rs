use mdsite::site::{build_site, BuildErrorKind, SiteEntry};
use mdsite::tailwind::Tailwind;
use mdsite::template::TemplateSet;

fn entry(rel_path: &str, is_dir: bool, content: &str) -> SiteEntry {
    SiteEntry {
        rel_path: rel_path.to_string(),
        is_dir,
        content: content.to_string(),
    }
}

fn site_entries() -> Vec<SiteEntry> {
    vec![
        entry("", true, ""),
        entry("index.md", false, "# Home"),
        entry("posts", true, ""),
        entry("posts/index.md", false, "# Posts"),
        entry("posts/2024-05-01_hello.md", false, "Hello post"),
        entry("posts/#draft.md", false, "Secret draft"),
        entry("posts/notes.txt", false, ""),
    ]
}

fn site_templates() -> TemplateSet {
    TemplateSet {
        files: vec![
            (
                "index.html".to_string(),
                "<main>{content}</main><ul>{{ for p in pages.posts }}<li>{p.filename} {p.date}</li>{{ endfor }}</ul>"
                    .to_string(),
            ),
            (
                "page.html".to_string(),
                "<article>{content}</article>".to_string(),
            ),
        ],
    }
}

#[test]
fn full_build_layout_and_listing() {
    let out = build_site(&site_entries(), &site_templates()).expect("build failed");
    let paths: Vec<&str> = out.iter().map(|o| o.0.as_str()).collect();
    assert_eq!(
        paths,
        vec!["index.html", "posts/index.html", "posts/hello/index.html"]
    );
    let posts_index = &out[1].1;
    assert!(posts_index.contains("<li>hello 2024-05-01</li>"));
    let hello = &out[2].1;
    assert!(hello.starts_with("<article>"));
    assert!(hello.contains("Hello post"));
}

#[test]
fn skipped_draft_absent_from_output() {
    let out = build_site(&site_entries(), &site_templates()).expect("build failed");
    for (path, text) in &out {
        assert!(!path.contains("draft"));
        assert!(!text.contains("Secret draft"));
    }
}

#[test]
fn build_twice_is_identical() {
    let a = build_site(&site_entries(), &site_templates()).expect("build failed");
    let b = build_site(&site_entries(), &site_templates()).expect("build failed");
    assert_eq!(a, b);
}

#[test]
fn section_template_overrides_generic_index() {
    let entries = vec![
        entry("", true, ""),
        entry("blog", true, ""),
        entry("blog/index.md", false, "B"),
        entry("notes", true, ""),
        entry("notes/index.md", false, "N"),
    ];
    let templates = TemplateSet {
        files: vec![
            ("index.html".to_string(), "GENERIC:{content}".to_string()),
            ("blog.html".to_string(), "BLOG:{content}".to_string()),
        ],
    };
    let out = build_site(&entries, &templates).expect("build failed");
    let blog = out
        .iter()
        .find(|o| o.0 == "blog/index.html")
        .expect("blog output missing");
    assert!(blog.1.starts_with("BLOG:"));
    let notes = out
        .iter()
        .find(|o| o.0 == "notes/index.html")
        .expect("notes output missing");
    assert!(notes.1.starts_with("GENERIC:"));
}

#[test]
fn missing_template_emits_raw_body() {
    let entries = vec![entry("", true, ""), entry("a.md", false, "# Hi")];
    let templates = TemplateSet { files: vec![] };
    let out = build_site(&entries, &templates).expect("build failed");
    assert_eq!(out.len(), 1);
    assert_eq!(out[0].0, "a/index.html");
    assert!(out[0].1.contains("<h1>"));
    assert!(out[0].1.contains("Hi"));
}

#[test]
fn malformed_date_aborts_build() {
    let entries = vec![
        entry("", true, ""),
        entry("posts", true, ""),
        entry("posts/2024-99-01_x.md", false, "t"),
    ];
    let e = build_site(&entries, &site_templates()).expect_err("build should fail");
    assert_eq!(e.kind, BuildErrorKind::MalformedDate);
    assert_eq!(e.path, "posts/2024-99-01_x.md");
}

#[test]
fn malformed_frontmatter_aborts_build() {
    let entries = vec![
        entry("", true, ""),
        entry("a.md", false, "---\ntitle: Hi\nno closing"),
    ];
    let e = build_site(&entries, &site_templates()).expect_err("build should fail");
    assert_eq!(e.kind, BuildErrorKind::MalformedFrontmatter);
    assert_eq!(e.path, "a.md");
}

#[test]
fn template_syntax_error_aborts_build() {
    let entries = vec![entry("", true, ""), entry("a.md", false, "x")];
    let templates = TemplateSet {
        files: vec![("page.html".to_string(), "<b>{content".to_string())],
    };
    let e = build_site(&entries, &templates).expect_err("build should fail");
    assert_eq!(e.kind, BuildErrorKind::TemplateSyntax);
    assert_eq!(e.path, "a.md");
}

#[test]
fn undefined_reference_aborts_build() {
    let entries = vec![entry("", true, ""), entry("a.md", false, "x")];
    let templates = TemplateSet {
        files: vec![("page.html".to_string(), "{nope}".to_string())],
    };
    let e = build_site(&entries, &templates).expect_err("build should fail");
    assert_eq!(e.kind, BuildErrorKind::UndefinedReference);
    assert_eq!(e.path, "a.md");
}

#[test]
fn css_asset_path_inside_output_root() {
    assert_eq!(Tailwind::output_css_path("dist"), "dist/tailwind.css");
    assert_eq!(Tailwind::output_css_path(""), "tailwind.css");
}
