//! The build pipeline over an enumerated site.
//!
//! The caller walks the content root and hands in every entry —
//! directories and files, with each file's text — together with the
//! available templates.  The build then runs in two phases: every
//! content file is parsed and the section index accumulated; the index
//! is finalized; and only then is every page rendered against its
//! resolved template and the finalized listings.  The result is the
//! full output tree as `(path, text)` pairs, or the first error, with
//! the offending path.
//!
//! A file is content when its name ends in `.md` and does not start
//! with the skip marker `#`.  A page's output directory is its own
//! directory for a landing page (slug `index`), and a subdirectory
//! named after the slug otherwise; the rendered document is always
//! `index.html` inside it.

use vstd::prelude::*;

use crate::index::SectionIndexBuilder;
use crate::index::append_spec;
use crate::index::finalize_spec;
use crate::index::register_spec;
use crate::page::Page;
use crate::page::PageError;
use crate::page::PageView;
use crate::page::parse_page;
use crate::render::RenderError;
use crate::render::build_context;
use crate::render::context_sections;
use crate::render::html_of;
use crate::render::index_dates_valid;
use crate::render::listing_value_of;
use crate::render::rendered_of;
use crate::render::sanitized_of;
use crate::render::template_compiles;
use crate::template::TemplateSet;
use crate::template::index_slug;
use crate::template::index_template_name;
use crate::template::resolve_template;
use crate::text::base_name;
use crate::text::base_name_exec;
use crate::text::dir_name;
use crate::text::dir_name_exec;
use crate::text::copy_range;
use crate::text::from_chars;
use crate::text::join_path;
use crate::text::join_path_exec;
use crate::text::to_chars;

verus! {

/// One entry of the walked content tree: its path relative to the
/// content root (`/`-separated, empty for the root itself), whether it
/// is a directory, and, for a file, its text.
pub struct SiteEntry {
    pub rel_path: String,
    pub is_dir: bool,
    pub content: String,
}

impl View for SiteEntry {
    type V = (Seq<char>, bool, Seq<char>);

    open spec fn view(&self) -> (Seq<char>, bool, Seq<char>) {
        (self.rel_path@, self.is_dir, self.content@)
    }
}

impl DeepView for SiteEntry {
    type V = (Seq<char>, bool, Seq<char>);

    open spec fn deep_view(&self) -> (Seq<char>, bool, Seq<char>) {
        self.view()
    }
}

/// Whether a file name names a content file: it ends in `.md` and
/// does not start with the skip marker `#`.
pub open spec fn is_content_name(name: Seq<char>) -> bool {
    name.len() >= 3 && name[name.len() - 3] == '.' && name[name.len() - 2] == 'm' && name[name.len()
        - 1] == 'd' && name[0] != '#'
}

/// Whether a file name names a content file, as [`is_content_name`]
/// describes.
pub fn is_content_file(name: &str) -> (r: bool)
    ensures
        r == is_content_name(name@),
{
    let v = to_chars(name);
    let n = v.len();
    n >= 3 && v[n - 3] == '.' && v[n - 2] == 'm' && v[n - 1] == 'd' && v[0] != '#'
}

/// A content file's stem: its name with the `.md` extension removed.
pub open spec fn stem_of(name: Seq<char>) -> Seq<char> {
    name.take(name.len() - 3)
}

/// The directory the rendered page is written into: the page's own
/// directory for a landing page, a subdirectory named after the slug
/// otherwise.
pub open spec fn output_dir(rel_path: Seq<char>, slug: Seq<char>) -> Seq<char> {
    if slug == index_slug() {
        dir_name(rel_path)
    } else {
        join_path(dir_name(rel_path), slug)
    }
}

/// The section a page belongs to: the base name of the directory that
/// contains it.
pub open spec fn section_of(rel_path: Seq<char>) -> Seq<char> {
    base_name(dir_name(rel_path))
}

/// What kind of error aborted a build.
#[derive(Clone, Copy, PartialEq, Eq, Structural, Debug)]
pub enum BuildErrorKind {
    /// A file name carries a date prefix that is no valid date.
    MalformedDate,
    /// A frontmatter block is unterminated or not a flat mapping.
    MalformedFrontmatter,
    /// A template cannot be parsed.
    TemplateSyntax,
    /// A template references a field the context does not hold.
    UndefinedReference,
}

/// The first error of a build, with the path it arose at.
#[derive(Debug)]
pub struct BuildError {
    pub path: String,
    pub kind: BuildErrorKind,
}

impl View for BuildError {
    type V = (Seq<char>, BuildErrorKind);

    open spec fn view(&self) -> (Seq<char>, BuildErrorKind) {
        (self.path@, self.kind)
    }
}

/// The build error a parse error surfaces as.
pub open spec fn page_error_kind(e: PageError) -> BuildErrorKind {
    match e {
        PageError::MalformedDate => BuildErrorKind::MalformedDate,
        PageError::MalformedFrontmatter => BuildErrorKind::MalformedFrontmatter,
    }
}

fn page_error_kind_exec(e: PageError) -> (r: BuildErrorKind)
    ensures
        r == page_error_kind(e),
{
    match e {
        PageError::MalformedDate => BuildErrorKind::MalformedDate,
        PageError::MalformedFrontmatter => BuildErrorKind::MalformedFrontmatter,
    }
}

/// The build error a render error surfaces as.
pub open spec fn render_error_kind(e: RenderError) -> BuildErrorKind {
    match e {
        RenderError::TemplateSyntax => BuildErrorKind::TemplateSyntax,
        RenderError::UndefinedReference => BuildErrorKind::UndefinedReference,
    }
}

fn render_error_kind_exec(e: RenderError) -> (r: BuildErrorKind)
    ensures
        r == render_error_kind(e),
{
    match e {
        RenderError::TemplateSyntax => BuildErrorKind::TemplateSyntax,
        RenderError::UndefinedReference => BuildErrorKind::UndefinedReference,
    }
}

/// One page waiting to be rendered once the index is final: where it
/// came from, where its document goes, the template that applies, and
/// the parsed page.
pub struct RenderJob {
    pub rel_path: String,
    pub out_dir: String,
    pub template: Option<String>,
    pub page: Page,
}

impl View for RenderJob {
    type V = (Seq<char>, Seq<char>, Option<Seq<char>>, PageView);

    open spec fn view(&self) -> (Seq<char>, Seq<char>, Option<Seq<char>>, PageView) {
        (self.rel_path@, self.out_dir@, self.template.deep_view(), self.page@)
    }
}

impl DeepView for RenderJob {
    type V = (Seq<char>, Seq<char>, Option<Seq<char>>, PageView);

    open spec fn deep_view(&self) -> (Seq<char>, Seq<char>, Option<Seq<char>>, PageView) {
        self.view()
    }
}

/// The state of the first phase: the section index so far, and the
/// pages waiting to be rendered.
pub open spec fn walk_state_init() -> (
    Seq<(Seq<char>, Seq<PageView>)>,
    Seq<(Seq<char>, Seq<char>, Option<Seq<char>>, PageView)>,
) {
    (Seq::empty(), Seq::empty())
}

/// What one walked entry does to the first phase: a directory is
/// registered as a section; a non-content file is ignored; a content
/// file is parsed, appended under its section, and queued for
/// rendering with its output directory and resolved template.
pub open spec fn walk_step(
    st: (Seq<(Seq<char>, Seq<PageView>)>, Seq<(Seq<char>, Seq<char>, Option<Seq<char>>, PageView)>),
    e: (Seq<char>, bool, Seq<char>),
    ts: Seq<(Seq<char>, Seq<char>)>,
) -> Result<
    (Seq<(Seq<char>, Seq<PageView>)>, Seq<(Seq<char>, Seq<char>, Option<Seq<char>>, PageView)>),
    (Seq<char>, BuildErrorKind),
> {
    if e.1 {
        Ok((register_spec(st.0, base_name(e.0)), st.1))
    } else if !is_content_name(base_name(e.0)) {
        Ok(st)
    } else {
        match parse_page(stem_of(base_name(e.0)), e.2) {
            Err(pe) => Err((e.0, page_error_kind(pe))),
            Ok(pv) => Ok(
                (
                    append_spec(st.0, section_of(e.0), pv),
                    st.1.push(
                        (
                            e.0,
                            output_dir(e.0, pv.filename),
                            resolve_template(pv.filename, section_of(e.0), ts),
                            pv,
                        ),
                    ),
                ),
            ),
        }
    }
}

/// The first phase over all entries, in order: the accumulated index
/// and render queue, or the first parse error.
pub open spec fn walk_all(
    entries: Seq<(Seq<char>, bool, Seq<char>)>,
    ts: Seq<(Seq<char>, Seq<char>)>,
) -> Result<
    (Seq<(Seq<char>, Seq<PageView>)>, Seq<(Seq<char>, Seq<char>, Option<Seq<char>>, PageView)>),
    (Seq<char>, BuildErrorKind),
>
    decreases entries.len(),
{
    if entries.len() == 0 {
        Ok(walk_state_init())
    } else {
        match walk_all(entries.drop_last(), ts) {
            Err(e) => Err(e),
            Ok(st) => walk_step(st, entries.last(), ts),
        }
    }
}

/// What rendering one queued page produces: its document at
/// `<output dir>/index.html`, holding the raw sanitized body when no
/// template applies, and the template's output otherwise; or the
/// error rendering fails with, at the page's source path.
pub open spec fn render_job_spec(
    job: (Seq<char>, Seq<char>, Option<Seq<char>>, PageView),
    cs: Seq<(Seq<char>, Seq<(Seq<char>, Option<Seq<char>>)>)>,
) -> Result<(Seq<char>, Seq<char>), (Seq<char>, BuildErrorKind)> {
    let body = sanitized_of(html_of(job.3.content));
    let out_path = join_path(job.1, index_template_name());
    match job.2 {
        None => Ok((out_path, body)),
        Some(t) => if !template_compiles(t) {
            Err((job.0, BuildErrorKind::TemplateSyntax))
        } else {
            match rendered_of(t, listing_value_of(cs), body) {
                Some(o) => Ok((out_path, o)),
                None => Err((job.0, BuildErrorKind::UndefinedReference)),
            }
        },
    }
}

/// The second phase over the render queue, in order: the output tree,
/// or the first render error.
pub open spec fn render_all(
    jobs: Seq<(Seq<char>, Seq<char>, Option<Seq<char>>, PageView)>,
    cs: Seq<(Seq<char>, Seq<(Seq<char>, Option<Seq<char>>)>)>,
) -> Result<Seq<(Seq<char>, Seq<char>)>, (Seq<char>, BuildErrorKind)>
    decreases jobs.len(),
{
    if jobs.len() == 0 {
        Ok(Seq::empty())
    } else {
        match render_all(jobs.drop_last(), cs) {
            Err(e) => Err(e),
            Ok(outs) => match render_job_spec(jobs.last(), cs) {
                Err(e) => Err(e),
                Ok(o) => Ok(outs.push(o)),
            },
        }
    }
}

/// What a whole build produces from the walked entries and the
/// available templates: the full output tree, or the first error.
/// Rendering sees only the finalized, sorted index.
pub open spec fn spec_build(
    entries: Seq<(Seq<char>, bool, Seq<char>)>,
    ts: Seq<(Seq<char>, Seq<char>)>,
) -> Result<Seq<(Seq<char>, Seq<char>)>, (Seq<char>, BuildErrorKind)> {
    match walk_all(entries, ts) {
        Err(e) => Err(e),
        Ok(st) => render_all(st.1, context_sections(finalize_spec(st.0))),
    }
}

/// The value of a build result: views of the outputs, or of the
/// error.
pub open spec fn build_result_view(r: Result<Vec<(String, String)>, BuildError>) -> Result<
    Seq<(Seq<char>, Seq<char>)>,
    (Seq<char>, BuildErrorKind),
> {
    match r {
        Ok(v) => Ok(v.deep_view()),
        Err(e) => Err(e@),
    }
}

proof fn lemma_walk_all_err(
    entries: Seq<(Seq<char>, bool, Seq<char>)>,
    ts: Seq<(Seq<char>, Seq<char>)>,
    i: int,
)
    requires
        0 <= i < entries.len(),
        walk_all(entries.take(i + 1), ts) is Err,
    ensures
        walk_all(entries, ts) == walk_all(entries.take(i + 1), ts),
    decreases entries.len() - i,
{
    if i + 1 == entries.len() {
        assert(entries.take(i + 1) =~= entries);
    } else {
        assert(entries.take(i + 2).drop_last() =~= entries.take(i + 1));
        lemma_walk_all_err(entries, ts, i + 1);
    }
}

proof fn lemma_render_all_err(
    jobs: Seq<(Seq<char>, Seq<char>, Option<Seq<char>>, PageView)>,
    cs: Seq<(Seq<char>, Seq<(Seq<char>, Option<Seq<char>>)>)>,
    i: int,
)
    requires
        0 <= i < jobs.len(),
        render_all(jobs.take(i + 1), cs) is Err,
    ensures
        render_all(jobs, cs) == render_all(jobs.take(i + 1), cs),
    decreases jobs.len() - i,
{
    if i + 1 == jobs.len() {
        assert(jobs.take(i + 1) =~= jobs);
    } else {
        assert(jobs.take(i + 2).drop_last() =~= jobs.take(i + 1));
        lemma_render_all_err(jobs, cs, i + 1);
    }
}

proof fn lemma_register_dates_valid(ss: Seq<(Seq<char>, Seq<PageView>)>, name: Seq<char>)
    requires
        index_dates_valid(ss),
    ensures
        index_dates_valid(register_spec(ss, name)),
{
    let r = register_spec(ss, name);
    assert forall|i: int, j: int| 0 <= i < r.len() && 0 <= j < r[i].1.len() implies match #[trigger] r[i].1[j].date {
        Some(d) => crate::date::date_valid(d),
        None => true,
    } by {
        if i < ss.len() {
            assert(r[i] == ss[i]);
        }
    }
}

proof fn lemma_append_dates_valid(
    ss: Seq<(Seq<char>, Seq<PageView>)>,
    name: Seq<char>,
    p: PageView,
)
    requires
        index_dates_valid(ss),
        match p.date {
            Some(d) => crate::date::date_valid(d),
            None => true,
        },
    ensures
        index_dates_valid(append_spec(ss, name, p)),
{
    let r = append_spec(ss, name, p);
    if p.filename == crate::template::index_slug() {
        return ;
    }
    if crate::index::has_section(ss, name) {
        crate::index::lemma_section_idx_bounds(ss, name);
    }
    assert forall|i: int, j: int| 0 <= i < r.len() && 0 <= j < r[i].1.len() implies match #[trigger] r[i].1[j].date {
        Some(d) => crate::date::date_valid(d),
        None => true,
    } by {
        if crate::index::has_section(ss, name) {
            let idx = crate::index::section_idx(ss, name);
            if i == idx {
                if j < ss[i].1.len() {
                    assert(r[i].1[j] == ss[i].1[j]);
                } else {
                    assert(r[i].1[j] == p);
                }
            } else {
                assert(r[i] == ss[i]);
            }
        } else {
            if i < ss.len() {
                assert(r[i] == ss[i]);
            } else {
                assert(r[i].1[j] == p);
            }
        }
    }
}

/// The first phase's state wrapped as a successful step.
pub open spec fn walk_ok(
    st: (Seq<(Seq<char>, Seq<PageView>)>, Seq<(Seq<char>, Seq<char>, Option<Seq<char>>, PageView)>),
) -> Result<
    (Seq<(Seq<char>, Seq<PageView>)>, Seq<(Seq<char>, Seq<char>, Option<Seq<char>>, PageView)>),
    (Seq<char>, BuildErrorKind),
> {
    Ok(st)
}

/// A first-phase error.
pub open spec fn walk_err(e: (Seq<char>, BuildErrorKind)) -> Result<
    (Seq<(Seq<char>, Seq<PageView>)>, Seq<(Seq<char>, Seq<char>, Option<Seq<char>>, PageView)>),
    (Seq<char>, BuildErrorKind),
> {
    Err(e)
}

/// A successful output tree.
pub open spec fn render_ok(outs: Seq<(Seq<char>, Seq<char>)>) -> Result<
    Seq<(Seq<char>, Seq<char>)>,
    (Seq<char>, BuildErrorKind),
> {
    Ok(outs)
}

/// A second-phase error.
pub open spec fn render_err(e: (Seq<char>, BuildErrorKind)) -> Result<
    Seq<(Seq<char>, Seq<char>)>,
    (Seq<char>, BuildErrorKind),
> {
    Err(e)
}

/// One rendered document.
pub open spec fn out_ok(o: (Seq<char>, Seq<char>)) -> Result<
    (Seq<char>, Seq<char>),
    (Seq<char>, BuildErrorKind),
> {
    Ok(o)
}

/// One failed rendering.
pub open spec fn out_err(e: (Seq<char>, BuildErrorKind)) -> Result<
    (Seq<char>, Seq<char>),
    (Seq<char>, BuildErrorKind),
> {
    Err(e)
}

/// Runs a whole build, as [`spec_build`] describes: phase one parses
/// every content file and accumulates the section index and the
/// render queue; the index is then finalized; phase two renders every
/// queued page against its template and the finalized listings.  The
/// result is the output tree as `(path, text)` pairs, or the first
/// error with the path it arose at.
pub fn build_site(entries: &Vec<SiteEntry>, templates: &TemplateSet) -> (r: Result<
    Vec<(String, String)>,
    BuildError,
>)
    ensures
        build_result_view(r) == spec_build(entries.deep_view(), templates@),
{
    let ghost es = entries.deep_view();
    let ghost ts = templates@;
    let mut builder = SectionIndexBuilder::new();
    let mut jobs: Vec<RenderJob> = Vec::new();
    let n = entries.len();
    let mut i: usize = 0;
    proof {
        assert(es.take(0) =~= Seq::<(Seq<char>, bool, Seq<char>)>::empty());
        assert(jobs.deep_view() =~~= walk_state_init().1);
        assert(walk_all(es.take(0), ts) == walk_ok((builder@, jobs.deep_view())));
    }
    while i < n
        invariant
            i <= n,
            n == entries.len(),
            es == entries.deep_view(),
            ts == templates@,
            walk_all(es.take(i as int), ts) == walk_ok((builder@, jobs.deep_view())),
            index_dates_valid(builder@),
        decreases n - i,
    {
        let ghost st0 = (builder@, jobs.deep_view());
        let e = &entries[i];
        proof {
            assert(e.deep_view() == es[i as int]);
            assert(es.take(i as int + 1).drop_last() =~= es.take(i as int));
            assert(es.take(i as int + 1).last() == es[i as int]);
        }
        let rel_chars = to_chars(e.rel_path.as_str());
        let name_chars = base_name_exec(&rel_chars);
        let name_s = from_chars(&name_chars);
        if e.is_dir {
            builder.register(name_s.as_str());
            proof {
                lemma_register_dates_valid(st0.0, name_s@);
                assert(walk_step(st0, es[i as int], ts) == walk_ok((builder@, jobs.deep_view())));
                assert(walk_all(es.take(i as int + 1), ts) == walk_ok((builder@, jobs.deep_view())));
            }
        } else if is_content_file(name_s.as_str()) {
            let nn = name_chars.len();
            let stem_chars = copy_range(&name_chars, 0, nn - 3);
            proof {
                assert(stem_chars@ =~= stem_of(name_s@));
            }
            let stem_s = from_chars(&stem_chars);
            match Page::from_md_file(stem_s.as_str(), e.content.as_str()) {
                Err(pe) => {
                    let err = BuildError {
                        path: e.rel_path.clone(),
                        kind: page_error_kind_exec(pe),
                    };
                    proof {
                        assert(walk_step(st0, es[i as int], ts) == walk_err((
                            es[i as int].0,
                            page_error_kind(pe),
                        )));
                        assert(walk_all(es.take(i as int + 1), ts) == walk_err((
                            es[i as int].0,
                            page_error_kind(pe),
                        )));
                        lemma_walk_all_err(es, ts, i as int);
                        assert(build_result_view(Err(err)) == spec_build(es, ts));
                    }
                    return Err(err);
                },
                Ok(p) => {
                    let dir_chars = dir_name_exec(&rel_chars);
                    let section_chars = base_name_exec(&dir_chars);
                    let section_s = from_chars(&section_chars);
                    let pc = p.clone();
                    builder.append(section_s.as_str(), pc);
                    let tpl = crate::template::resolve_template_exec(
                        p.filename.as_str(),
                        section_s.as_str(),
                        templates,
                    );
                    let idx_chars = crate::template::index_slug_chars();
                    let out_dir_chars = if crate::text::str_eq_chars(
                        p.filename.as_str(),
                        &idx_chars,
                    ) {
                        dir_chars
                    } else {
                        let slug_chars = to_chars(p.filename.as_str());
                        join_path_exec(&dir_chars, &slug_chars)
                    };
                    let out_dir_s = from_chars(&out_dir_chars);
                    let ghost j0 = jobs.deep_view();
                    let ghost pv = p@;
                    let job = RenderJob {
                        rel_path: e.rel_path.clone(),
                        out_dir: out_dir_s,
                        template: tpl,
                        page: p,
                    };
                    jobs.push(job);
                    proof {
                        assert(match pv.date {
                            Some(d) => crate::date::date_valid(d),
                            None => true,
                        });
                        lemma_append_dates_valid(st0.0, section_s@, pv);
                        assert(jobs.deep_view() =~~= j0.push(
                            (
                                es[i as int].0,
                                output_dir(es[i as int].0, pv.filename),
                                resolve_template(pv.filename, section_of(es[i as int].0), ts),
                                pv,
                            ),
                        ));
                        assert(walk_step(st0, es[i as int], ts) == walk_ok((
                            builder@,
                            jobs.deep_view(),
                        )));
                        assert(walk_all(es.take(i as int + 1), ts) == walk_ok((
                            builder@,
                            jobs.deep_view(),
                        )));
                    }
                },
            }
        } else {
            proof {
                assert(!is_content_name(base_name(es[i as int].0)));
                assert(walk_step(st0, es[i as int], ts) == walk_ok(st0));
                assert(walk_all(es.take(i as int + 1), ts) == walk_ok((builder@, jobs.deep_view())));
            }
        }
        i += 1;
    }
    proof {
        assert(es.take(n as int) =~= es);
    }
    let ghost ssv = builder@;
    let ghost jv = jobs.deep_view();
    let final_index = builder.finalize();
    let ghost cs = context_sections(finalize_spec(ssv));
    proof {
        lemma_finalize_dates_valid(ssv);
    }
    let mut outputs: Vec<(String, String)> = Vec::new();
    let m = jobs.len();
    let mut j: usize = 0;
    proof {
        assert(jv.take(0) =~= Seq::<(Seq<char>, Seq<char>, Option<Seq<char>>, PageView)>::empty());
        assert(outputs.deep_view() =~~= Seq::<(Seq<char>, Seq<char>)>::empty());
        assert(render_all(jv.take(0), cs) == render_ok(outputs.deep_view()));
    }
    while j < m
        invariant
            j <= m,
            m == jobs.len(),
            es == entries.deep_view(),
            ts == templates@,
            jv == jobs.deep_view(),
            walk_all(es, ts) == walk_ok((ssv, jv)),
            final_index@ == finalize_spec(ssv),
            index_dates_valid(final_index@),
            cs == context_sections(finalize_spec(ssv)),
            render_all(jv.take(j as int), cs) == render_ok(outputs.deep_view()),
        decreases m - j,
    {
        let job = &jobs[j];
        proof {
            assert(job.deep_view() == jv[j as int]);
            assert(jv.take(j as int + 1).drop_last() =~= jv.take(j as int));
            assert(jv.take(j as int + 1).last() == jv[j as int]);
        }
        let body = job.page.html_content();
        let ihc = crate::template::index_html_chars();
        let odc = to_chars(job.out_dir.as_str());
        let out_path_chars = join_path_exec(&odc, &ihc);
        let out_path = from_chars(&out_path_chars);
        let ghost opv = out_path@;
        match &job.template {
            None => {
                let ghost o0 = outputs.deep_view();
                let ghost bv = body@;
                outputs.push((out_path, body));
                proof {
                    assert(render_job_spec(jv[j as int], cs) == out_ok((opv, bv)));
                    assert(outputs.deep_view() =~~= o0.push((opv, bv)));
                    assert(render_all(jv.take(j as int + 1), cs) == render_ok(outputs.deep_view()));
                }
            },
            Some(t) => {
                let ctx = build_context(&final_index, body);
                match job.page.render_from_template(t.as_str(), &ctx) {
                    Ok(s) => {
                        let ghost o0 = outputs.deep_view();
                        let ghost sv = s@;
                        outputs.push((out_path, s));
                        proof {
                            assert(template_compiles(t@));
                            assert(render_job_spec(jv[j as int], cs) == out_ok((opv, sv)));
                            assert(outputs.deep_view() =~~= o0.push((opv, sv)));
                            assert(render_all(jv.take(j as int + 1), cs) == render_ok(
                                outputs.deep_view(),
                            ));
                        }
                    },
                    Err(re) => {
                        let err = BuildError {
                            path: job.rel_path.clone(),
                            kind: render_error_kind_exec(re),
                        };
                        proof {
                            match re {
                                RenderError::TemplateSyntax => {
                                    assert(!template_compiles(t@));
                                },
                                RenderError::UndefinedReference => {
                                    assert(template_compiles(t@));
                                    assert(rendered_of(t@, listing_value_of(cs), ctx@.1) is None);
                                },
                            }
                            assert(render_job_spec(jv[j as int], cs) == out_err((
                                jv[j as int].0,
                                render_error_kind(re),
                            )));
                            assert(render_all(jv.take(j as int + 1), cs) == render_err((
                                jv[j as int].0,
                                render_error_kind(re),
                            )));
                            lemma_render_all_err(jv, cs, j as int);
                            assert(build_result_view(Err(err)) == spec_build(es, ts));
                        }
                        return Err(err);
                    },
                }
            },
        }
        j += 1;
    }
    proof {
        assert(jv.take(m as int) =~= jv);
        assert(build_result_view(Ok(outputs)) == spec_build(es, ts));
    }
    Ok(outputs)
}

proof fn lemma_register_no_index(ss: Seq<(Seq<char>, Seq<PageView>)>, name: Seq<char>)
    requires
        crate::index::no_index_listed(ss),
    ensures
        crate::index::no_index_listed(register_spec(ss, name)),
{
    let r = register_spec(ss, name);
    assert forall|i: int, j: int|
        0 <= i < r.len() && 0 <= j < r[i].1.len() implies (#[trigger] r[i].1[j]).filename
        != index_slug() by {
        if i < ss.len() {
            assert(r[i] == ss[i]);
            assert(ss[i].1[j] == r[i].1[j]);
        }
    }
}

proof fn lemma_append_no_index(ss: Seq<(Seq<char>, Seq<PageView>)>, name: Seq<char>, p: PageView)
    requires
        crate::index::no_index_listed(ss),
    ensures
        crate::index::no_index_listed(append_spec(ss, name, p)),
{
    let r = append_spec(ss, name, p);
    if p.filename == index_slug() {
        return ;
    }
    if crate::index::has_section(ss, name) {
        crate::index::lemma_section_idx_bounds(ss, name);
    }
    assert forall|i: int, j: int|
        0 <= i < r.len() && 0 <= j < r[i].1.len() implies (#[trigger] r[i].1[j]).filename
        != index_slug() by {
        if crate::index::has_section(ss, name) {
            let idx = crate::index::section_idx(ss, name);
            if i == idx {
                if j < ss[i].1.len() {
                    assert(r[i].1[j] == ss[i].1[j]);
                } else {
                    assert(r[i].1[j] == p);
                }
            } else {
                assert(r[i] == ss[i]);
                assert(ss[i].1[j] == r[i].1[j]);
            }
        } else {
            if i < ss.len() {
                assert(r[i] == ss[i]);
                assert(ss[i].1[j] == r[i].1[j]);
            } else {
                assert(r[i].1[j] == p);
            }
        }
    }
}

proof fn lemma_finalize_no_index(ss: Seq<(Seq<char>, Seq<PageView>)>)
    requires
        crate::index::no_index_listed(ss),
    ensures
        crate::index::no_index_listed(finalize_spec(ss)),
{
    broadcast use vstd::seq_lib::group_to_multiset_ensures;

    let r = finalize_spec(ss);
    assert forall|i: int, j: int|
        0 <= i < r.len() && 0 <= j < r[i].1.len() implies (#[trigger] r[i].1[j]).filename
        != index_slug() by {
        assert(r[i] == (ss[i].0, crate::index::sort_pages(ss[i].1)));
        let sorted = crate::index::sort_pages(ss[i].1);
        crate::index::lemma_sort_pages_ordered(ss[i].1);
        assert(sorted.to_multiset().count(sorted[j]) > 0);
        assert(ss[i].1.to_multiset().count(sorted[j]) > 0);
        assert(ss[i].1.contains(sorted[j]));
        let k = choose|k: int| 0 <= k < ss[i].1.len() && ss[i].1[k] == sorted[j];
        assert(ss[i].1[k].filename != index_slug());
    }
}

/// A section's landing page is never listed: whatever entries a build
/// walks, no listing of the finalized index — the one every rendering
/// sees — holds a page with slug `index`.
pub proof fn lemma_index_never_listed(
    entries: Seq<(Seq<char>, bool, Seq<char>)>,
    ts: Seq<(Seq<char>, Seq<char>)>,
)
    ensures
        walk_all(entries, ts) matches Ok(st) ==> crate::index::no_index_listed(
            finalize_spec(st.0),
        ),
    decreases entries.len(),
{
    lemma_walk_no_index(entries, ts);
    let r = walk_all(entries, ts);
    if r is Ok {
        lemma_finalize_no_index(r->Ok_0.0);
    }
}

proof fn lemma_walk_no_index(
    entries: Seq<(Seq<char>, bool, Seq<char>)>,
    ts: Seq<(Seq<char>, Seq<char>)>,
)
    ensures
        walk_all(entries, ts) matches Ok(st) ==> crate::index::no_index_listed(st.0),
    decreases entries.len(),
{
    let r = walk_all(entries, ts);
    if entries.len() == 0 {
        if r is Ok {
            assert(crate::index::no_index_listed(r->Ok_0.0));
        }
    } else {
        lemma_walk_no_index(entries.drop_last(), ts);
        if r is Ok {
            let st0 = walk_all(entries.drop_last(), ts)->Ok_0;
            let e = entries.last();
            if e.1 {
                lemma_register_no_index(st0.0, base_name(e.0));
            } else if is_content_name(base_name(e.0)) {
                let pr = parse_page(stem_of(base_name(e.0)), e.2);
                if pr is Ok {
                    lemma_append_no_index(st0.0, section_of(e.0), pr->Ok_0);
                }
            }
        }
    }
}

/// A file whose name starts with the skip marker `#` contributes
/// nothing to a build: the walk passes it over, so it reaches neither
/// the section index nor the output tree.
pub proof fn lemma_skip_marker(
    st: (Seq<(Seq<char>, Seq<PageView>)>, Seq<(Seq<char>, Seq<char>, Option<Seq<char>>, PageView)>),
    e: (Seq<char>, bool, Seq<char>),
    ts: Seq<(Seq<char>, Seq<char>)>,
)
    requires
        !e.1,
        base_name(e.0).len() > 0,
        base_name(e.0)[0] == '#',
    ensures
        walk_step(st, e, ts) == walk_ok(st),
{
}

/// A build is a function of the walked entries and the templates
/// alone: two runs over the same input produce the same result.
pub proof fn lemma_build_deterministic(
    r1: Result<Vec<(String, String)>, BuildError>,
    r2: Result<Vec<(String, String)>, BuildError>,
    entries: Seq<(Seq<char>, bool, Seq<char>)>,
    ts: Seq<(Seq<char>, Seq<char>)>,
)
    requires
        build_result_view(r1) == spec_build(entries, ts),
        build_result_view(r2) == spec_build(entries, ts),
    ensures
        build_result_view(r1) == build_result_view(r2),
{
}

proof fn lemma_finalize_dates_valid(ss: Seq<(Seq<char>, Seq<PageView>)>)
    requires
        index_dates_valid(ss),
    ensures
        index_dates_valid(finalize_spec(ss)),
{
    broadcast use vstd::seq_lib::group_to_multiset_ensures;

    let r = finalize_spec(ss);
    assert forall|i: int, j: int| 0 <= i < r.len() && 0 <= j < r[i].1.len() implies match #[trigger] r[i].1[j].date {
        Some(d) => crate::date::date_valid(d),
        None => true,
    } by {
        assert(r[i] == (ss[i].0, crate::index::sort_pages(ss[i].1)));
        let sorted = crate::index::sort_pages(ss[i].1);
        crate::index::lemma_sort_pages_ordered(ss[i].1);
        assert(sorted.to_multiset().count(sorted[j]) > 0);
        assert(ss[i].1.to_multiset().count(sorted[j]) > 0);
        assert(ss[i].1.contains(sorted[j]));
        let k = choose|k: int| 0 <= k < ss[i].1.len() && ss[i].1[k] == sorted[j];
        assert(match ss[i].1[k].date {
            Some(d) => crate::date::date_valid(d),
            None => true,
        });
    }
}

} // verus!
