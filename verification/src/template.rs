//! Template resolution.
//!
//! Templates are plain strings held in a [`TemplateSet`], keyed by
//! file name.  A section's landing page (slug `index`) prefers a
//! template named after its section directory (`<section>.html`),
//! falling back to the generic `index.html`; every other page uses the
//! generic `page.html`.  When no template applies the result is
//! absent, and rendering degrades to the raw HTML body.

use vstd::prelude::*;

use crate::text::str_eq_chars;

verus! {

/// The templates available to a build, as `(file name, content)`
/// pairs.
pub struct TemplateSet {
    pub files: Vec<(String, String)>,
}

impl View for TemplateSet {
    type V = Seq<(Seq<char>, Seq<char>)>;

    open spec fn view(&self) -> Seq<(Seq<char>, Seq<char>)> {
        self.files.deep_view()
    }
}

/// The slug that marks a section's landing page.
pub open spec fn index_slug() -> Seq<char> {
    seq!['i', 'n', 'd', 'e', 'x']
}

/// The `.html` file-name suffix.
pub open spec fn html_ext() -> Seq<char> {
    seq!['.', 'h', 't', 'm', 'l']
}

/// The name of the generic landing-page template, `index.html`.
pub open spec fn index_template_name() -> Seq<char> {
    index_slug() + html_ext()
}

/// The name of the generic page template, `page.html`.
pub open spec fn page_template_name() -> Seq<char> {
    seq!['p', 'a', 'g', 'e'] + html_ext()
}

/// The content of the first file named `name`, if any.
pub open spec fn lookup(fs: Seq<(Seq<char>, Seq<char>)>, name: Seq<char>) -> Option<Seq<char>>
    decreases fs.len(),
{
    if fs.len() == 0 {
        None
    } else if fs[0].0 == name {
        Some(fs[0].1)
    } else {
        lookup(fs.drop_first(), name)
    }
}

/// The template that applies to a page with slug `slug` in section
/// `section`: for a landing page, `<section>.html` if present, else
/// `index.html`; for any other page, `page.html`; `None` when the
/// applicable template is missing.
pub open spec fn resolve_template(
    slug: Seq<char>,
    section: Seq<char>,
    fs: Seq<(Seq<char>, Seq<char>)>,
) -> Option<Seq<char>> {
    if slug == index_slug() {
        match lookup(fs, section + html_ext()) {
            Some(t) => Some(t),
            None => lookup(fs, index_template_name()),
        }
    } else {
        lookup(fs, page_template_name())
    }
}

/// The characters of the slug that marks a section's landing page.
pub fn index_slug_chars() -> (r: Vec<char>)
    ensures
        r@ == index_slug(),
{
    let mut r: Vec<char> = Vec::new();
    r.push('i');
    r.push('n');
    r.push('d');
    r.push('e');
    r.push('x');
    proof {
        assert(r@ =~= index_slug());
    }
    r
}

/// The characters of the output file name `index.html`.
pub fn index_html_chars() -> (r: Vec<char>)
    ensures
        r@ == index_template_name(),
{
    let mut r = index_slug_chars();
    r.push('.');
    r.push('h');
    r.push('t');
    r.push('m');
    r.push('l');
    proof {
        assert(r@ =~= index_template_name());
    }
    r
}

fn lookup_exec(ts: &TemplateSet, name: &Vec<char>) -> (r: Option<String>)
    ensures
        match r {
            Some(t) => lookup(ts@, name@) == Some(t@),
            None => lookup(ts@, name@) is None,
        },
{
    let n = ts.files.len();
    let mut i: usize = 0;
    proof {
        assert(ts@.skip(0) =~= ts@);
    }
    while i < n
        invariant
            i <= n,
            n == ts.files.len(),
            lookup(ts@, name@) == lookup(ts@.skip(i as int), name@),
        decreases n - i,
    {
        let ghost tail = ts@.skip(i as int);
        proof {
            assert(tail[0] == ts@[i as int]);
            assert(ts@[i as int].0 =~= ts.files@[i as int].0@);
            assert(ts@[i as int].1 =~= ts.files@[i as int].1@);
            assert(tail.drop_first() =~= ts@.skip(i as int + 1));
        }
        if str_eq_chars(ts.files[i].0.as_str(), name) {
            return Some(ts.files[i].1.clone());
        }
        i += 1;
    }
    None
}

/// Builds the file name `<section>.html`.
fn section_template_name(section: &str) -> (r: Vec<char>)
    ensures
        r@ == section@ + html_ext(),
{
    let mut r = crate::text::to_chars(section);
    r.push('.');
    r.push('h');
    r.push('t');
    r.push('m');
    r.push('l');
    proof {
        assert(r@ =~= section@ + html_ext());
    }
    r
}

/// Picks the template that applies to a page, as [`resolve_template`]
/// describes.
pub fn resolve_template_exec(slug: &str, section: &str, ts: &TemplateSet) -> (r: Option<String>)
    ensures
        match r {
            Some(t) => resolve_template(slug@, section@, ts@) == Some(t@),
            None => resolve_template(slug@, section@, ts@) is None,
        },
{
    let mut index_chars: Vec<char> = Vec::new();
    index_chars.push('i');
    index_chars.push('n');
    index_chars.push('d');
    index_chars.push('e');
    index_chars.push('x');
    proof {
        assert(index_chars@ =~= index_slug());
    }
    if str_eq_chars(slug, &index_chars) {
        let sec_name = section_template_name(section);
        match lookup_exec(ts, &sec_name) {
            Some(t) => Some(t),
            None => {
                let mut gen_name = index_chars;
                gen_name.push('.');
                gen_name.push('h');
                gen_name.push('t');
                gen_name.push('m');
                gen_name.push('l');
                proof {
                    assert(gen_name@ =~= index_template_name());
                }
                lookup_exec(ts, &gen_name)
            },
        }
    } else {
        let mut page_name: Vec<char> = Vec::new();
        page_name.push('p');
        page_name.push('a');
        page_name.push('g');
        page_name.push('e');
        page_name.push('.');
        page_name.push('h');
        page_name.push('t');
        page_name.push('m');
        page_name.push('l');
        proof {
            assert(page_name@ =~= page_template_name());
        }
        lookup_exec(ts, &page_name)
    }
}

} // verus!
