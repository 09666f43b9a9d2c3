//! Rendering: converting a page's Markdown body to sanitized HTML and
//! substituting it, together with the finalized section listings, into
//! a template.
//!
//! The template language is the templating engine's; this module pins
//! down when rendering succeeds and that its outcome depends only on
//! the template and the context handed to it.

use vstd::prelude::*;

use serde_json::Value;

use crate::date::date_string;
use crate::date::date_valid;
use crate::date::date_chars;
use crate::index::SectionIndex;
use crate::page::Page;
use crate::page::PageView;
use crate::text::from_chars;

verus! {

/// Why rendering a page failed.
#[derive(Clone, Copy, PartialEq, Eq, Structural, Debug)]
pub enum RenderError {
    /// The template text cannot be parsed by the templating engine.
    TemplateSyntax,
    /// The template references a field the context does not hold.
    UndefinedReference,
}

/// The context a template is rendered against: the finalized section
/// listings — each listed page as its slug and its formatted
/// `YYYY-MM-DD` date, if any — and the page's sanitized HTML body.
pub struct PageContext {
    pub pages: Vec<(String, Vec<(String, Option<String>)>)>,
    pub content: String,
}

impl View for PageContext {
    type V = (Seq<(Seq<char>, Seq<(Seq<char>, Option<Seq<char>>)>)>, Seq<char>);

    open spec fn view(&self) -> (Seq<(Seq<char>, Seq<(Seq<char>, Option<Seq<char>>)>)>, Seq<char>) {
        (self.pages.deep_view(), self.content@)
    }
}

/// The HTML that the Markdown converter produces for a text.
pub uninterp spec fn html_of(md: Seq<char>) -> Seq<char>;

/// The result of sanitizing an HTML fragment.
pub uninterp spec fn sanitized_of(html: Seq<char>) -> Seq<char>;

/// Whether the templating engine accepts a template text.
pub uninterp spec fn template_compiles(t: Seq<char>) -> bool;

#[verifier::external_type_specification]
#[verifier::external_body]
pub struct ExValue(Value);

/// The engine-facing value that the section listings convert to: an
/// object keyed by section name, each holding its listed pages in
/// order as objects with their slug and formatted date.
pub uninterp spec fn listing_value_of(
    sections: Seq<(Seq<char>, Seq<(Seq<char>, Option<Seq<char>>)>)>,
) -> Value;

/// What rendering a compiled template against a context — the
/// listing value and the content text — produces: the output text,
/// or `None` when the template references something the context does
/// not hold.
pub uninterp spec fn rendered_of(t: Seq<char>, listing: Value, content: Seq<char>) -> Option<
    Seq<char>,
>;

/// Relies on `comrak::markdown_to_html` with default options: converts
/// CommonMark text to HTML; the result depends on the text alone.
#[verifier::external_body]
fn markdown_to_html_exec(md: &str) -> (r: String)
    ensures
        r@ == html_of(md@),
{
    comrak::markdown_to_html(md, &comrak::Options::default())
}

/// Relies on `ammonia::clean` with default settings: removes unsafe
/// markup from an HTML fragment; the result depends on the fragment
/// alone.
#[verifier::external_body]
fn sanitize_html(html: &str) -> (r: String)
    ensures
        r@ == sanitized_of(html@),
{
    ammonia::clean(html)
}

/// Relies on serde_json value construction: builds the engine-facing
/// object tree for the section listings, one object per listed page
/// with its slug under `filename` and its date (or null) under
/// `date`.  A `serde_json` object holds its keys sorted, so the value
/// is a function of the listings alone.
#[verifier::external_body]
fn listing_value(pages: &Vec<(String, Vec<(String, Option<String>)>)>) -> (v: Value)
    ensures
        v == listing_value_of(pages.deep_view()),
{
    let entry = |p: &(String, Option<String>)| Value::Object([("filename".to_string(),
        Value::String(p.0.clone())), ("date".to_string(), p.1.clone().map_or(Value::Null,
        Value::String))].into_iter().collect());
    Value::Object(pages.iter().map(|s| (s.0.clone(), Value::Array(s.1.iter().map(
        entry).collect()))).collect())
}

/// Relies on tinytemplate: `TinyTemplate::add_template` parses the
/// template text, and its success depends on that text alone;
/// `TinyTemplate::render`, with the unescaped default formatter and a
/// context object holding the listing value under `pages` and the
/// content text under `content`, substitutes the context into the
/// template, and its outcome depends on the template and that context
/// alone.  A parse failure is a syntax error; a render failure
/// reports a reference the context cannot satisfy.
#[verifier::external_body]
fn tt_render(template: &str, listing: Value, content: &str) -> (r: Result<String, RenderError>)
    ensures
        (r matches Err(e) && e == RenderError::TemplateSyntax) <==> !template_compiles(template@),
        template_compiles(template@) ==> match rendered_of(template@, listing, content@) {
            Some(out) => r matches Ok(s) && s@ == out,
            None => r matches Err(e) && e == RenderError::UndefinedReference,
        },
{
    let mut tt = tinytemplate::TinyTemplate::new();
    tt.set_default_formatter(&tinytemplate::format_unescaped);
    if tt.add_template("page", template).is_err() {
        return Err(RenderError::TemplateSyntax);
    }
    let top = [("pages".to_string(), listing), ("content".to_string(), Value::String(
        content.to_string()))];
    tt.render("page", &Value::Object(top.into_iter().collect())).map_err(|_|
        RenderError::UndefinedReference)
}

/// A listed page as a template sees it: its slug and its formatted
/// date, if any.
pub open spec fn listed_entry(p: PageView) -> (Seq<char>, Option<Seq<char>>) {
    (
        p.filename,
        match p.date {
            Some(d) => Some(date_string(d)),
            None => None,
        },
    )
}

/// The section listings of a finalized index, as a template sees
/// them.
pub open spec fn context_sections(ss: Seq<(Seq<char>, Seq<PageView>)>) -> Seq<
    (Seq<char>, Seq<(Seq<char>, Option<Seq<char>>)>),
> {
    ss.map_values(|e: (Seq<char>, Seq<PageView>)| (e.0, e.1.map_values(|p: PageView| listed_entry(p))))
}

/// Whether every dated page of the index carries a valid calendar
/// date, as every parsed page does.
pub open spec fn index_dates_valid(ss: Seq<(Seq<char>, Seq<PageView>)>) -> bool {
    forall|i: int, j: int|
        0 <= i < ss.len() && 0 <= j < ss[i].1.len() ==> match #[trigger] ss[i].1[j].date {
            Some(d) => date_valid(d),
            None => true,
        }
}

/// Builds the render context for one page: the finalized listings and
/// the page's already-computed HTML body.
pub fn build_context(index: &SectionIndex, content: String) -> (r: PageContext)
    requires
        index_dates_valid(index@),
    ensures
        r@.0 == context_sections(index@),
        r@.1 == content@,
{
    let n = index.sections.len();
    let mut pages: Vec<(String, Vec<(String, Option<String>)>)> = Vec::new();
    let mut i: usize = 0;
    while i < n
        invariant
            i <= n,
            n == index.sections.len(),
            index_dates_valid(index@),
            pages.deep_view() =~~= context_sections(index@.take(i as int)),
        decreases n - i,
    {
        let sec = &index.sections[i];
        let ghost secv = index@[i as int];
        proof {
            assert(secv == (sec.0@, sec.1.deep_view()));
        }
        let m = sec.1.len();
        let mut entries: Vec<(String, Option<String>)> = Vec::new();
        let mut j: usize = 0;
        while j < m
            invariant
                j <= m,
                m == sec.1.len(),
                index_dates_valid(index@),
                0 <= i < index@.len(),
                secv == index@[i as int],
                secv.1 == sec.1.deep_view(),
                entries.deep_view() =~~= secv.1.take(j as int).map_values(
                    |p: PageView| listed_entry(p),
                ),
            decreases m - j,
        {
            let p = &sec.1[j];
            proof {
                assert(p@ == secv.1[j as int]);
                assert(match secv.1[j as int].date {
                    Some(d) => date_valid(d),
                    None => true,
                });
            }
            let date_str: Option<String> = match &p.date {
                Some(d) => Some(from_chars(&date_chars(d))),
                None => None,
            };
            let slug = p.filename.clone();
            let ghost e0 = entries.deep_view();
            entries.push((slug, date_str));
            proof {
                assert(entries.deep_view() =~~= e0.push(listed_entry(secv.1[j as int])));
                assert(secv.1.take(j as int + 1).map_values(|p: PageView| listed_entry(p))
                    =~~= secv.1.take(j as int).map_values(|p: PageView| listed_entry(p)).push(
                    listed_entry(secv.1[j as int]),
                ));
            }
            j += 1;
        }
        proof {
            assert(secv.1.take(m as int) =~= secv.1);
        }
        let name = sec.0.clone();
        let ghost p0 = pages.deep_view();
        pages.push((name, entries));
        proof {
            assert(pages.deep_view() =~~= p0.push((secv.0, secv.1.map_values(
                |p: PageView| listed_entry(p),
            ))));
            assert(context_sections(index@.take(i as int + 1)) =~~= context_sections(
                index@.take(i as int),
            ).push((secv.0, secv.1.map_values(|p: PageView| listed_entry(p)))));
        }
        i += 1;
    }
    proof {
        assert(index@.take(n as int) =~= index@);
    }
    PageContext { pages, content }
}

impl Page {
    /// The page's body converted to HTML and sanitized.
    pub fn html_content(&self) -> (r: String)
        ensures
            r@ == sanitized_of(html_of(self@.content)),
    {
        let html = markdown_to_html_exec(self.content.as_str());
        sanitize_html(html.as_str())
    }

    /// Renders the page against a template: substitutes the context
    /// into the template's placeholders.  Fails with
    /// [`RenderError::TemplateSyntax`] exactly when the template does
    /// not compile, and with [`RenderError::UndefinedReference`]
    /// exactly when the compiled template references something the
    /// context does not hold.
    pub fn render_from_template(&self, template_html: &str, context: &PageContext) -> (r: Result<
        String,
        RenderError,
    >)
        ensures
            (r matches Err(e) && e == RenderError::TemplateSyntax) <==> !template_compiles(
                template_html@,
            ),
            template_compiles(template_html@) ==> match rendered_of(
                template_html@,
                listing_value_of(context@.0),
                context@.1,
            ) {
                Some(out) => r matches Ok(s) && s@ == out,
                None => r matches Err(e) && e == RenderError::UndefinedReference,
            },
    {
        let lv = listing_value(&context.pages);
        tt_render(template_html, lv, context.content.as_str())
    }
}

} // verus!
