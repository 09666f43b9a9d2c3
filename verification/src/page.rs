//! Content pages: parsing a Markdown file into frontmatter, body,
//! publish date and slug, converting the body to sanitized HTML, and
//! rendering a page through a template.
//!
//! A file name may carry a `YYYY-MM-DD` date prefix.  The prefix is
//! removed by position, and one separator (`-` or `_`) directly after
//! it is skipped; the rest of the stem is the slug.  A prefix that
//! matches the pattern but is not a valid calendar date is rejected.
//!
//! A file whose first line is exactly `---` opens a frontmatter block
//! that runs to the next line that is exactly `---`; the block is
//! parsed as a flat string-to-string mapping and the remaining lines,
//! trimmed, are the body.  An unterminated or unparseable block is
//! rejected.

use vstd::prelude::*;

use crate::date::Date;
use crate::date::date_from_prefix;
use crate::date::date_matches_exec;
use crate::date::date_prefix_matches;
use crate::date::date_valid;
use crate::date::prefix_date;
use crate::text::copy_range;
use crate::text::from_chars;
use crate::text::join_lines;
use crate::text::join_lines_range;
use crate::text::split_lines;
use crate::text::split_lines_exec;
use crate::text::to_chars;
use crate::text::trim_chars;
use crate::text::trimmed;

verus! {

/// Why a content file was rejected.
#[derive(Clone, Copy, PartialEq, Eq, Structural, Debug)]
pub enum PageError {
    /// The file name starts with the `YYYY-MM-DD` pattern, but the
    /// numbers are not a valid calendar date.
    MalformedDate,
    /// The file opens a frontmatter block that has no closing
    /// delimiter, or whose text is not a flat string mapping.
    MalformedFrontmatter,
}

/// One content document: optional frontmatter, Markdown body, optional
/// publish date taken from the file name, and slug.
pub struct Page {
    pub frontmatter: Option<Vec<(String, String)>>,
    pub content: String,
    pub date: Option<Date>,
    pub filename: String,
}

/// The mathematical value of a [`Page`].
pub struct PageView {
    pub frontmatter: Option<Seq<(Seq<char>, Seq<char>)>>,
    pub content: Seq<char>,
    pub date: Option<Date>,
    pub filename: Seq<char>,
}

impl View for Page {
    type V = PageView;

    open spec fn view(&self) -> PageView {
        PageView {
            frontmatter: match self.frontmatter {
                Some(v) => Some(v.deep_view()),
                None => None,
            },
            content: self.content@,
            date: self.date,
            filename: self.filename@,
        }
    }
}

impl DeepView for Page {
    type V = PageView;

    open spec fn deep_view(&self) -> PageView {
        self.view()
    }
}

/// The mapping a flat YAML document parses to, as a key-sorted
/// sequence of pairs; `None` when the text is not a flat string
/// mapping.
pub uninterp spec fn yaml_pairs_of(s: Seq<char>) -> Option<Seq<(Seq<char>, Seq<char>)>>;

/// Relies on `serde_yaml::from_str`: parses a YAML document into a
/// `BTreeMap` with string keys and string values, or fails.  The
/// outcome depends on the text alone, and a `BTreeMap` holds each key
/// once and hands its entries out sorted by key, so the returned pair
/// sequence is a function of the text and its keys are distinct.
#[verifier::external_body]
fn parse_flat_mapping(s: &str) -> (r: Option<Vec<(String, String)>>)
    ensures
        match r {
            Some(v) => yaml_pairs_of(s@) == Some(v.deep_view()) && (forall|i: int, j: int|
                0 <= i < j < v.deep_view().len() ==> v.deep_view()[i].0 != v.deep_view()[j].0),
            None => yaml_pairs_of(s@) is None,
        },
{
    match serde_yaml::from_str::<std::collections::BTreeMap<String, String>>(s) {
        Ok(m) => Some(m.into_iter().collect()),
        Err(_) => None,
    }
}

/// The frontmatter delimiter line.
pub open spec fn dashes() -> Seq<char> {
    seq!['-', '-', '-']
}

/// Index of the first delimiter line in `ls`, or `ls.len()` if there
/// is none.
pub open spec fn first_delim(ls: Seq<Seq<char>>) -> int
    decreases ls.len(),
{
    if ls.len() == 0 {
        0
    } else if ls[0] == dashes() {
        0
    } else {
        1 + first_delim(ls.drop_first())
    }
}

proof fn lemma_first_delim_at(ls: Seq<Seq<char>>, i: int)
    requires
        0 <= i <= ls.len(),
        forall|j: int| 0 <= j < i ==> ls[j] != dashes(),
        i == ls.len() || ls[i] == dashes(),
    ensures
        first_delim(ls) == i,
    decreases i,
{
    if i > 0 {
        lemma_first_delim_at(ls.drop_first(), i - 1);
    }
}

/// Whether the content opens a frontmatter block: its first line is
/// exactly the delimiter.
pub open spec fn has_frontmatter(md: Seq<char>) -> bool {
    let ls = split_lines(md);
    ls.len() > 0 && ls[0] == dashes()
}

/// The lines between the opening delimiter and the closing one (all
/// remaining lines when the block is unterminated).
pub open spec fn fm_block(md: Seq<char>) -> Seq<char> {
    let tail = split_lines(md).drop_first();
    join_lines(tail.take(first_delim(tail)))
}

/// Whether an opened frontmatter block has a closing delimiter.
pub open spec fn fm_terminated(md: Seq<char>) -> bool {
    let tail = split_lines(md).drop_first();
    first_delim(tail) < tail.len()
}

/// The body of a file with a frontmatter block: the lines after the
/// closing delimiter, joined and trimmed.
pub open spec fn fm_body(md: Seq<char>) -> Seq<char> {
    let tail = split_lines(md).drop_first();
    trimmed(join_lines(tail.skip(first_delim(tail) + 1)))
}

/// The slug of a file-name stem: the stem itself, or, when the stem
/// starts with the date pattern, the rest after the ten date
/// characters with one separator (`-` or `_`) directly after them
/// skipped.
pub open spec fn slug_of(stem: Seq<char>) -> Seq<char> {
    if date_prefix_matches(stem) {
        let rest = stem.skip(10);
        if rest.len() > 0 && (rest[0] == '-' || rest[0] == '_') {
            rest.drop_first()
        } else {
            rest
        }
    } else {
        stem
    }
}

/// What parsing a content file returns: the page built from the
/// file-name stem and the file text, or the error that rejects it.
pub open spec fn parse_page(stem: Seq<char>, md: Seq<char>) -> Result<PageView, PageError> {
    if date_prefix_matches(stem) && !date_valid(prefix_date(stem)) {
        Err(PageError::MalformedDate)
    } else {
        let date = if date_prefix_matches(stem) {
            Some(prefix_date(stem))
        } else {
            None
        };
        if has_frontmatter(md) {
            if !fm_terminated(md) {
                Err(PageError::MalformedFrontmatter)
            } else {
                match yaml_pairs_of(fm_block(md)) {
                    Some(pairs) => Ok(
                        PageView {
                            frontmatter: Some(pairs),
                            content: fm_body(md),
                            date,
                            filename: slug_of(stem),
                        },
                    ),
                    None => Err(PageError::MalformedFrontmatter),
                }
            }
        } else {
            Ok(
                PageView {
                    frontmatter: None,
                    content: trimmed(md),
                    date,
                    filename: slug_of(stem),
                },
            )
        }
    }
}

/// The value of a parse result: views of the page, errors unchanged.
pub open spec fn parse_result_view(r: Result<Page, PageError>) -> Result<PageView, PageError> {
    match r {
        Ok(p) => Ok(p@),
        Err(e) => Err(e),
    }
}

/// A file that does not open with the frontmatter delimiter parses
/// with no frontmatter and a body that is exactly the trimmed file
/// text.
pub proof fn lemma_no_frontmatter_body(stem: Seq<char>, md: Seq<char>)
    requires
        !has_frontmatter(md),
        date_prefix_matches(stem) ==> date_valid(prefix_date(stem)),
    ensures
        parse_page(stem, md) matches Ok(pv) && pv.frontmatter is None && pv.content == trimmed(md),
{
}

/// The mapping a sequence of key-value pairs stands for, later pairs
/// winning on a repeated key.
pub open spec fn pairs_to_map(ps: Seq<(Seq<char>, Seq<char>)>) -> Map<Seq<char>, Seq<char>>
    decreases ps.len(),
{
    if ps.len() == 0 {
        Map::empty()
    } else {
        pairs_to_map(ps.drop_last()).insert(ps.last().0, ps.last().1)
    }
}

/// Whether no two pairs share a key.
pub open spec fn distinct_keys(ps: Seq<(Seq<char>, Seq<char>)>) -> bool {
    forall|i: int, j: int| 0 <= i < j < ps.len() ==> ps[i].0 != ps[j].0
}

proof fn lemma_pairs_to_map_props(ps: Seq<(Seq<char>, Seq<char>)>)
    requires
        distinct_keys(ps),
    ensures
        forall|i: int|
            0 <= i < ps.len() ==> pairs_to_map(ps).contains_key(#[trigger] ps[i].0)
                && pairs_to_map(ps)[ps[i].0] == ps[i].1,
        forall|k: Seq<char>| #[trigger]
            pairs_to_map(ps).contains_key(k) ==> exists|i: int|
                0 <= i < ps.len() && ps[i].0 == k,
    decreases ps.len(),
{
    if ps.len() > 0 {
        let front = ps.drop_last();
        assert(distinct_keys(front));
        lemma_pairs_to_map_props(front);
        assert forall|i: int| 0 <= i < ps.len() implies pairs_to_map(ps).contains_key(
            #[trigger] ps[i].0,
        ) && pairs_to_map(ps)[ps[i].0] == ps[i].1 by {
            if i < ps.len() - 1 {
                assert(front[i] == ps[i]);
                assert(ps[i].0 != ps.last().0);
            }
        }
        assert forall|k: Seq<char>| #[trigger]
            pairs_to_map(ps).contains_key(k) implies exists|i: int|
            0 <= i < ps.len() && ps[i].0 == k by {
            if k != ps.last().0 {
                assert(pairs_to_map(front).contains_key(k));
                let w = choose|w: int| 0 <= w < front.len() && front[w].0 == k;
                assert(front[w] == ps[w]);
                assert(ps[w].0 == k);
            } else {
                assert(ps[ps.len() - 1].0 == k);
            }
        }
    }
}

/// The mapping a frontmatter block parses to does not depend on the
/// order its pairs are handed out in: any two pair sequences with the
/// same pairs and no repeated key stand for the same mapping.
pub proof fn lemma_mapping_order_independent(
    a: Seq<(Seq<char>, Seq<char>)>,
    b: Seq<(Seq<char>, Seq<char>)>,
)
    requires
        distinct_keys(a),
        distinct_keys(b),
        a.to_multiset() == b.to_multiset(),
    ensures
        pairs_to_map(a) == pairs_to_map(b),
{
    broadcast use vstd::seq_lib::group_to_multiset_ensures;

    lemma_pairs_to_map_props(a);
    lemma_pairs_to_map_props(b);
    assert forall|k: Seq<char>| #[trigger]
        pairs_to_map(a).contains_key(k) implies pairs_to_map(b).contains_key(k) && pairs_to_map(
        b,
    )[k] == pairs_to_map(a)[k] by {
        let i = choose|i: int| 0 <= i < a.len() && a[i].0 == k;
        assert(a.contains(a[i]));
        assert(b.to_multiset().count(a[i]) > 0);
        assert(b.contains(a[i]));
        let j = choose|j: int| 0 <= j < b.len() && b[j] == a[i];
        assert(pairs_to_map(b).contains_key(b[j].0) && pairs_to_map(b)[b[j].0] == b[j].1);
    }
    assert forall|k: Seq<char>| #[trigger]
        pairs_to_map(b).contains_key(k) implies pairs_to_map(a).contains_key(k) by {
        let j = choose|j: int| 0 <= j < b.len() && b[j].0 == k;
        assert(b.contains(b[j]));
        assert(a.to_multiset().count(b[j]) > 0);
        assert(a.contains(b[j]));
        let i = choose|i: int| 0 <= i < a.len() && a[i] == b[j];
        assert(pairs_to_map(a).contains_key(a[i].0));
    }
    assert(pairs_to_map(a) =~= pairs_to_map(b));
}

fn is_dashes(l: &Vec<char>) -> (r: bool)
    ensures
        r == (l@ == dashes()),
{
    let r = l.len() == 3 && l[0] == '-' && l[1] == '-' && l[2] == '-';
    proof {
        if r {
            assert(l@ =~= dashes());
        } else {
            assert(l@ != dashes());
        }
    }
    r
}

impl Clone for Page {
    /// An independent copy with the same value.
    fn clone(&self) -> (r: Page)
        ensures
            r@ == self@,
    {
        let fm: Option<Vec<(String, String)>> = match &self.frontmatter {
            Some(v) => {
                let n = v.len();
                let mut out: Vec<(String, String)> = Vec::new();
                let mut i: usize = 0;
                proof {
                    assert(out.deep_view() =~~= v.deep_view().take(0));
                }
                while i < n
                    invariant
                        i <= n,
                        n == v.len(),
                        out.deep_view() == v.deep_view().take(i as int),
                    decreases n - i,
                {
                    let ghost o0 = out.deep_view();
                    out.push((v[i].0.clone(), v[i].1.clone()));
                    proof {
                        assert(out.deep_view() =~~= o0.push(v.deep_view()[i as int]));
                        assert(v.deep_view().take(i as int + 1) =~~= v.deep_view().take(
                            i as int,
                        ).push(v.deep_view()[i as int]));
                    }
                    i += 1;
                }
                proof {
                    assert(v.deep_view().take(n as int) =~= v.deep_view());
                }
                Some(out)
            },
            None => None,
        };
        Page {
            frontmatter: fm,
            content: self.content.clone(),
            date: self.date,
            filename: self.filename.clone(),
        }
    }
}

impl Page {
    /// Parses one content file: `stem` is the file name without its
    /// extension, `md_content` the file text.  Returns exactly what
    /// [`parse_page`] describes.
    pub fn from_md_file(stem: &str, md_content: &str) -> (r: Result<Page, PageError>)
        ensures
            parse_result_view(r) == parse_page(stem@, md_content@),
    {
        let stem_chars = to_chars(stem);
        let matched = date_matches_exec(&stem_chars);
        let mut date: Option<Date> = None;
        let filename: String;
        if matched {
            match date_from_prefix(&stem_chars) {
                Some(d) => {
                    date = Some(d);
                },
                None => {
                    return Err(PageError::MalformedDate);
                },
            }
            let n = stem_chars.len();
            let skip_sep = n > 10 && (stem_chars[10] == '-' || stem_chars[10] == '_');
            let slug = if skip_sep {
                copy_range(&stem_chars, 11, n)
            } else {
                copy_range(&stem_chars, 10, n)
            };
            proof {
                let rest = stem@.skip(10);
                if skip_sep {
                    assert(slug@ =~= rest.drop_first());
                } else {
                    assert(slug@ =~= rest);
                }
            }
            filename = from_chars(&slug);
        } else {
            filename = from_chars(&stem_chars);
        }
        let md_chars = to_chars(md_content);
        let lines = split_lines_exec(&md_chars);
        let opens = lines.len() > 0 && is_dashes(&lines[0]);
        proof {
            if lines.len() > 0 {
                assert(lines.deep_view()[0] =~= lines@[0]@);
            }
        }
        if !opens {
            let body_chars = trim_chars(&md_chars);
            let body = from_chars(&body_chars);
            let p = Page { frontmatter: None, content: body, date, filename };
            proof {
                assert(parse_result_view(Ok(p)) == parse_page(stem@, md_content@));
            }
            return Ok(p);
        }
        let ghost tail = lines.deep_view().drop_first();
        let n_lines = lines.len();
        let mut k: usize = 1;
        while k < n_lines && !is_dashes(&lines[k])
            invariant
                1 <= k <= n_lines,
                n_lines == lines.len(),
                tail == lines.deep_view().drop_first(),
                forall|j: int| 0 <= j < k - 1 ==> tail[j] != dashes(),
            decreases n_lines - k,
        {
            proof {
                assert(tail[k - 1] == lines.deep_view()[k as int]);
                assert(lines.deep_view()[k as int] =~= lines@[k as int]@);
            }
            k += 1;
        }
        proof {
            if k < n_lines {
                assert(tail[k - 1] == lines.deep_view()[k as int]);
                assert(lines.deep_view()[k as int] =~= lines@[k as int]@);
            }
            lemma_first_delim_at(tail, k - 1);
        }
        if k == n_lines {
            proof {
                assert(!fm_terminated(md_content@));
            }
            return Err(PageError::MalformedFrontmatter);
        }
        let block_chars = join_lines_range(&lines, 1, k);
        proof {
            assert(lines.deep_view().subrange(1, k as int) =~~= tail.take(k - 1));
        }
        let block = from_chars(&block_chars);
        match parse_flat_mapping(block.as_str()) {
            Some(pairs) => {
                let body_raw = join_lines_range(&lines, k + 1, n_lines);
                proof {
                    assert(lines.deep_view().subrange(k as int + 1, n_lines as int) =~~= tail.skip(
                        k as int,
                    ));
                }
                let body_chars = trim_chars(&body_raw);
                let body = from_chars(&body_chars);
                let p = Page { frontmatter: Some(pairs), content: body, date, filename };
                proof {
                    assert(parse_result_view(Ok(p)) == parse_page(stem@, md_content@));
                }
                Ok(p)
            },
            None => Err(PageError::MalformedFrontmatter),
        }
    }
}

} // verus!
