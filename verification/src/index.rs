//! The section index: pages grouped by the directory that contains
//! them, each group ordered by publish date.
//!
//! The index is accumulated while the site is walked — a directory is
//! registered as soon as it is seen, and each parsed page is appended
//! under its parent directory's name — and then finalized, which sorts
//! every listing: dated pages first, most recent first, undated pages
//! after them.  A section's landing page (slug `index`) is never
//! listed in its own section.

use vstd::prelude::*;
use vstd::string::StringExecFns;
use vstd::multiset::Multiset;

use crate::date::date_le;
use crate::date::date_le_exec;
use crate::page::Page;
use crate::page::PageView;
use crate::template::index_slug;
use crate::text::str_eq;
use crate::text::str_eq_chars;

verus! {

/// Whether page `a` comes no later than page `b` in a listing: dated
/// pages before undated ones, dated pages most recent first.
pub open spec fn listing_le(a: PageView, b: PageView) -> bool {
    match (a.date, b.date) {
        (Some(da), Some(db)) => date_le(db, da),
        (Some(_), None) => true,
        (None, Some(_)) => false,
        (None, None) => true,
    }
}

/// Compares two pages in listing order, as [`listing_le`] describes.
pub fn listing_le_exec(a: &Page, b: &Page) -> (r: bool)
    ensures
        r == listing_le(a@, b@),
{
    match (&a.date, &b.date) {
        (Some(da), Some(db)) => date_le_exec(db, da),
        (Some(_), None) => true,
        (None, Some(_)) => false,
        (None, None) => true,
    }
}

/// Whether `s` is ordered by [`listing_le`].
pub open spec fn pages_sorted(s: Seq<PageView>) -> bool {
    forall|i: int, j: int| 0 <= i < j < s.len() ==> listing_le(s[i], s[j])
}

proof fn lemma_listing_le_total(a: PageView, b: PageView)
    ensures
        listing_le(a, b) || listing_le(b, a),
{
}

proof fn lemma_listing_le_trans(a: PageView, b: PageView, c: PageView)
    requires
        listing_le(a, b),
        listing_le(b, c),
    ensures
        listing_le(a, c),
{
}

/// `p` placed into `s` after every element that comes no later than
/// it.
pub open spec fn insert_sorted(p: PageView, s: Seq<PageView>) -> Seq<PageView>
    decreases s.len(),
{
    if s.len() > 0 && listing_le(s[0], p) {
        seq![s[0]] + insert_sorted(p, s.drop_first())
    } else {
        seq![p] + s
    }
}

/// `s` ordered by [`listing_le`], by stable insertion.
pub open spec fn sort_pages(s: Seq<PageView>) -> Seq<PageView>
    decreases s.len(),
{
    if s.len() == 0 {
        Seq::empty()
    } else {
        insert_sorted(s.last(), sort_pages(s.drop_last()))
    }
}

proof fn lemma_insert_sorted_multiset(p: PageView, s: Seq<PageView>)
    ensures
        insert_sorted(p, s).to_multiset() == s.to_multiset().insert(p),
    decreases s.len(),
{
    broadcast use vstd::seq_lib::group_to_multiset_ensures;

    if s.len() > 0 && listing_le(s[0], p) {
        lemma_insert_sorted_multiset(p, s.drop_first());
        vstd::seq_lib::lemma_multiset_commutative(seq![s[0]], insert_sorted(p, s.drop_first()));
        vstd::seq_lib::lemma_multiset_commutative(seq![s[0]], s.drop_first());
        assert(seq![s[0]] + s.drop_first() =~= s);
        assert(seq![s[0]].to_multiset() =~= Multiset::empty().insert(s[0]));
        assert(insert_sorted(p, s).to_multiset() =~= s.to_multiset().insert(p));
    } else {
        vstd::seq_lib::lemma_multiset_commutative(seq![p], s);
        assert(seq![p].to_multiset() =~= Multiset::empty().insert(p));
        assert(insert_sorted(p, s).to_multiset() =~= s.to_multiset().insert(p));
    }
}

proof fn lemma_insert_sorted_sorted(p: PageView, s: Seq<PageView>)
    requires
        pages_sorted(s),
    ensures
        pages_sorted(insert_sorted(p, s)),
    decreases s.len(),
{
    broadcast use vstd::seq_lib::group_to_multiset_ensures;

    let r = insert_sorted(p, s);
    if s.len() > 0 && listing_le(s[0], p) {
        let rest = s.drop_first();
        assert(pages_sorted(rest));
        lemma_insert_sorted_sorted(p, rest);
        let inner = insert_sorted(p, rest);
        lemma_insert_sorted_multiset(p, rest);
        assert forall|j: int| 0 <= j < inner.len() implies listing_le(s[0], inner[j]) by {
            assert(inner.to_multiset().count(inner[j]) > 0);
            assert(inner.to_multiset() == rest.to_multiset().insert(p));
            if inner[j] == p {
            } else {
                assert(rest.to_multiset().count(inner[j]) > 0);
                assert(rest.contains(inner[j]));
                let k = choose|k: int| 0 <= k < rest.len() && rest[k] == inner[j];
                assert(listing_le(s[0], rest[k]));
            }
        }
        assert forall|i: int, j: int| 0 <= i < j < r.len() implies listing_le(r[i], r[j]) by {
            if i == 0 {
                assert(r[j] == inner[j - 1]);
            } else {
                assert(r[i] == inner[i - 1] && r[j] == inner[j - 1]);
            }
        }
    } else {
        if s.len() > 0 {
            lemma_listing_le_total(s[0], p);
        }
        assert forall|i: int, j: int| 0 <= i < j < r.len() implies listing_le(r[i], r[j]) by {
            if i == 0 {
                assert(r[j] == s[j - 1]);
                if s.len() > 0 && j >= 2 {
                    lemma_listing_le_trans(p, s[0], s[j - 1]);
                }
            } else {
                assert(r[i] == s[i - 1] && r[j] == s[j - 1]);
            }
        }
    }
}

/// The finalized order of a listing is a permutation of what was
/// appended, with dated pages first, most recent first, and undated
/// pages after all dated ones.
pub proof fn lemma_sort_pages_ordered(s: Seq<PageView>)
    ensures
        sort_pages(s).to_multiset() == s.to_multiset(),
        pages_sorted(sort_pages(s)),
        sort_pages(s).len() == s.len(),
    decreases s.len(),
{
    broadcast use vstd::seq_lib::group_to_multiset_ensures;

    if s.len() > 0 {
        lemma_sort_pages_ordered(s.drop_last());
        lemma_insert_sorted_multiset(s.last(), sort_pages(s.drop_last()));
        lemma_insert_sorted_sorted(s.last(), sort_pages(s.drop_last()));
        assert(s.drop_last().push(s.last()) =~= s);
        assert(s.drop_last().push(s.last()).to_multiset() == s.drop_last().to_multiset().insert(
            s.last(),
        ));
        assert(sort_pages(s).len() == sort_pages(s).to_multiset().len());
        assert(s.len() == s.to_multiset().len());
    }
}

proof fn lemma_insert_sorted_at(p: PageView, s: Seq<PageView>, i: int)
    requires
        0 <= i <= s.len(),
        forall|k: int| 0 <= k < i ==> listing_le(s[k], p),
        i == s.len() || !listing_le(s[i], p),
    ensures
        insert_sorted(p, s) == s.take(i) + seq![p] + s.skip(i),
    decreases i,
{
    if i == 0 {
        assert(s.take(0) + seq![p] + s.skip(0) =~= seq![p] + s);
    } else {
        lemma_insert_sorted_at(p, s.drop_first(), i - 1);
        assert(s.drop_first().take(i - 1) =~= s.take(i).drop_first());
        assert(s.drop_first().skip(i - 1) =~= s.skip(i));
        assert(seq![s[0]] + (s.drop_first().take(i - 1) + seq![p] + s.drop_first().skip(i - 1))
            =~= s.take(i) + seq![p] + s.skip(i));
    }
}

/// Places one page into an already ordered listing, as
/// [`insert_sorted`] describes.
fn insert_sorted_exec(pages: &mut Vec<Page>, p: Page)
    ensures
        final(pages).deep_view() == insert_sorted(p@, old(pages).deep_view()),
{
    let n = pages.len();
    let mut idx: usize = 0;
    while idx < n && listing_le_exec(&pages[idx], &p)
        invariant
            idx <= n,
            n == pages.len(),
            forall|k: int| 0 <= k < idx ==> listing_le(pages.deep_view()[k], p@),
        decreases n - idx,
    {
        idx += 1;
    }
    proof {
        lemma_insert_sorted_at(p@, pages.deep_view(), idx as int);
    }
    pages.insert(idx, p);
    proof {
        assert(pages.deep_view() =~~= old(pages).deep_view().take(idx as int) + seq![p@] + old(
            pages,
        ).deep_view().skip(idx as int));
    }
}

/// Orders a listing, as [`sort_pages`] describes.
fn sort_pages_exec(pages: Vec<Page>) -> (r: Vec<Page>)
    ensures
        r.deep_view() == sort_pages(pages.deep_view()),
{
    let ghost orig = pages.deep_view();
    let mut rest = pages;
    let mut out: Vec<Page> = Vec::new();
    let ghost mut gi: int = 0;
    proof {
        assert(rest.deep_view() =~~= orig.skip(0));
        assert(out.deep_view() =~~= sort_pages(orig.take(0)));
    }
    while rest.len() != 0
        invariant
            0 <= gi <= orig.len(),
            rest.deep_view() == orig.skip(gi),
            out.deep_view() == sort_pages(orig.take(gi)),
        decreases rest.len(),
    {
        let ghost rest0 = rest@;
        proof {
            assert(rest.deep_view().len() == rest0.len());
        }
        let p = rest.remove(0);
        proof {
            assert(p == rest0[0]);
            assert(p.deep_view() == orig.skip(gi)[0]);
            assert(p@ == orig[gi]);
            assert(rest@ =~= rest0.drop_first());
            assert forall|k: int| 0 <= k < rest@.len() implies rest.deep_view()[k] == orig.skip(
                gi + 1,
            )[k] by {
                assert(rest@[k] == rest0[k + 1]);
                assert(rest.deep_view()[k] == rest0[k + 1].deep_view());
                assert(orig.skip(gi)[k + 1] == rest0[k + 1].deep_view());
                assert(orig.skip(gi + 1)[k] == orig.skip(gi)[k + 1]);
            }
            assert(rest.deep_view() =~~= orig.skip(gi + 1));
        }
        insert_sorted_exec(&mut out, p);
        proof {
            assert(orig.take(gi + 1).drop_last() =~= orig.take(gi));
            assert(orig.take(gi + 1).last() == orig[gi]);
            assert(out.deep_view() == sort_pages(orig.take(gi + 1)));
            gi = gi + 1;
        }
    }
    proof {
        assert(rest.deep_view().len() == rest@.len());
        assert(gi == orig.len());
        assert(orig.take(orig.len() as int) =~= orig);
    }
    out
}

/// The section index under construction: section names in the order
/// first seen, each with the pages appended to it so far.
pub struct SectionIndexBuilder {
    pub sections: Vec<(String, Vec<Page>)>,
}

/// The finalized section index: every listing ordered by
/// [`listing_le`].
pub struct SectionIndex {
    pub sections: Vec<(String, Vec<Page>)>,
}

impl View for SectionIndexBuilder {
    type V = Seq<(Seq<char>, Seq<PageView>)>;

    open spec fn view(&self) -> Seq<(Seq<char>, Seq<PageView>)> {
        self.sections.deep_view()
    }
}

impl View for SectionIndex {
    type V = Seq<(Seq<char>, Seq<PageView>)>;

    open spec fn view(&self) -> Seq<(Seq<char>, Seq<PageView>)> {
        self.sections.deep_view()
    }
}

/// Whether a section named `name` is present.
pub open spec fn has_section(ss: Seq<(Seq<char>, Seq<PageView>)>, name: Seq<char>) -> bool {
    exists|i: int| 0 <= i < ss.len() && ss[i].0 == name
}

/// Index of the first section named `name`; meaningful when
/// [`has_section`] holds.
pub open spec fn section_idx(ss: Seq<(Seq<char>, Seq<PageView>)>, name: Seq<char>) -> int
    decreases ss.len(),
{
    if ss.len() == 0 {
        0
    } else if ss[0].0 == name {
        0
    } else {
        1 + section_idx(ss.drop_first(), name)
    }
}

proof fn lemma_section_idx_at(ss: Seq<(Seq<char>, Seq<PageView>)>, name: Seq<char>, i: int)
    requires
        0 <= i <= ss.len(),
        forall|k: int| 0 <= k < i ==> ss[k].0 != name,
        i == ss.len() || ss[i].0 == name,
    ensures
        section_idx(ss, name) == i,
        has_section(ss, name) <==> i < ss.len(),
    decreases i,
{
    if i == 0 {
        if ss.len() > 0 && ss[0].0 == name {
        }
    } else {
        lemma_section_idx_at(ss.drop_first(), name, i - 1);
        assert forall|k: int| 0 <= k < i - 1 implies ss.drop_first()[k].0 != name by {
            assert(ss.drop_first()[k] == ss[k + 1]);
        }
        if i < ss.len() {
            assert(ss[i].0 == name);
        } else {
            if has_section(ss, name) {
                let w = choose|w: int| 0 <= w < ss.len() && ss[w].0 == name;
                assert(false);
            }
        }
    }
}

/// Whether no listing of the index holds a landing page (slug
/// `index`).
pub open spec fn no_index_listed(ss: Seq<(Seq<char>, Seq<PageView>)>) -> bool {
    forall|i: int, j: int|
        0 <= i < ss.len() && 0 <= j < ss[i].1.len() ==> (#[trigger] ss[i].1[j]).filename
            != index_slug()
}

/// The first section named `name` is inside the index and carries
/// that name.
pub proof fn lemma_section_idx_bounds(ss: Seq<(Seq<char>, Seq<PageView>)>, name: Seq<char>)
    requires
        has_section(ss, name),
    ensures
        0 <= section_idx(ss, name) < ss.len(),
        ss[section_idx(ss, name)].0 == name,
    decreases ss.len(),
{
    if ss.len() > 0 && ss[0].0 != name {
        let w = choose|w: int| 0 <= w < ss.len() && ss[w].0 == name;
        assert(ss.drop_first()[w - 1].0 == name);
        lemma_section_idx_bounds(ss.drop_first(), name);
    }
}

/// What registering a directory leaves in the index: a new empty
/// section when the name is new, the index unchanged otherwise.
pub open spec fn register_spec(
    ss: Seq<(Seq<char>, Seq<PageView>)>,
    name: Seq<char>,
) -> Seq<(Seq<char>, Seq<PageView>)> {
    if has_section(ss, name) {
        ss
    } else {
        ss.push((name, Seq::empty()))
    }
}

/// What appending a page leaves in the index: unchanged for a landing
/// page (slug `index`); otherwise the page at the end of its section's
/// listing, the section created first when its name is new.
pub open spec fn append_spec(
    ss: Seq<(Seq<char>, Seq<PageView>)>,
    name: Seq<char>,
    p: PageView,
) -> Seq<(Seq<char>, Seq<PageView>)> {
    if p.filename == index_slug() {
        ss
    } else if has_section(ss, name) {
        let i = section_idx(ss, name);
        ss.update(i, (ss[i].0, ss[i].1.push(p)))
    } else {
        ss.push((name, seq![p]))
    }
}

/// What finalizing the index produces: every listing ordered by
/// [`sort_pages`], sections otherwise untouched.
pub open spec fn finalize_spec(ss: Seq<(Seq<char>, Seq<PageView>)>) -> Seq<
    (Seq<char>, Seq<PageView>),
> {
    ss.map_values(|e: (Seq<char>, Seq<PageView>)| (e.0, sort_pages(e.1)))
}

impl SectionIndexBuilder {
    /// An index with no sections.
    pub fn new() -> (r: SectionIndexBuilder)
        ensures
            r@ == Seq::<(Seq<char>, Seq<PageView>)>::empty(),
    {
        let r = SectionIndexBuilder { sections: Vec::new() };
        proof {
            assert(r@ =~= Seq::<(Seq<char>, Seq<PageView>)>::empty());
        }
        r
    }

    /// Registers a directory as a section, as [`register_spec`]
    /// describes.
    pub fn register(&mut self, dir: &str)
        ensures
            final(self)@ == register_spec(old(self)@, dir@),
    {
        let n = self.sections.len();
        let mut i: usize = 0;
        while i < n
            invariant
                i <= n,
                n == self.sections.len(),
                *self == *old(self),
                forall|k: int| 0 <= k < i ==> self@[k].0 != dir@,
            decreases n - i,
        {
            proof {
                assert(self@[i as int].0 =~= self.sections@[i as int].0@);
            }
            if str_eq(self.sections[i].0.as_str(), dir) {
                proof {
                    assert(has_section(self@, dir@));
                }
                return ;
            }
            i += 1;
        }
        proof {
            if has_section(self@, dir@) {
                let w = choose|w: int| 0 <= w < self@.len() && self@[w].0 == dir@;
                assert(false);
            }
        }
        let name = String::from_str(dir);
        let empty_pages: Vec<Page> = Vec::new();
        self.sections.push((name, empty_pages));
        proof {
            assert(self@ =~~= register_spec(old(self)@, dir@));
        }
    }

    /// Appends a page under its parent directory's name, as
    /// [`append_spec`] describes.
    pub fn append(&mut self, dir: &str, page: Page)
        ensures
            final(self)@ == append_spec(old(self)@, dir@, page@),
    {
        let idx_chars = crate::template::index_slug_chars();
        if str_eq_chars(page.filename.as_str(), &idx_chars) {
            return ;
        }
        let n = self.sections.len();
        let mut i: usize = 0;
        while i < n
            invariant
                i <= n,
                n == self.sections.len(),
                *self == *old(self),
                page@.filename != index_slug(),
                forall|k: int| 0 <= k < i ==> self@[k].0 != dir@,
            decreases n - i,
        {
            proof {
                assert(self@[i as int].0 =~= self.sections@[i as int].0@);
            }
            if str_eq(self.sections[i].0.as_str(), dir) {
                proof {
                    lemma_section_idx_at(self@, dir@, i as int);
                }
                let (name, mut pages) = self.sections.remove(i);
                pages.push(page);
                self.sections.insert(i, (name, pages));
                proof {
                    assert(self@ =~~= append_spec(old(self)@, dir@, page@));
                }
                return ;
            }
            i += 1;
        }
        proof {
            lemma_section_idx_at(self@, dir@, n as int);
        }
        let name = String::from_str(dir);
        let mut pages: Vec<Page> = Vec::new();
        pages.push(page);
        self.sections.push((name, pages));
        proof {
            assert(self@ =~~= append_spec(old(self)@, dir@, page@));
        }
    }

    /// Orders every listing and returns the finalized index, as
    /// [`finalize_spec`] describes.
    pub fn finalize(self) -> (r: SectionIndex)
        ensures
            r@ == finalize_spec(self@),
    {
        let ghost orig = self@;
        let mut rest = self.sections;
        let mut out: Vec<(String, Vec<Page>)> = Vec::new();
        let ghost mut gi: int = 0;
        proof {
            assert(rest.deep_view() =~~= orig.skip(0));
            assert(out.deep_view() =~~= finalize_spec(orig.take(0)));
        }
        while rest.len() != 0
            invariant
                0 <= gi <= orig.len(),
                rest.deep_view() == orig.skip(gi),
                out.deep_view() == finalize_spec(orig.take(gi)),
            decreases rest.len(),
        {
            let ghost rest0 = rest@;
            proof {
                assert(rest.deep_view().len() == rest0.len());
            }
            let (name, pages) = rest.remove(0);
            proof {
                assert((name, pages) == rest0[0]);
                assert(rest0[0].deep_view() == orig.skip(gi)[0]);
                assert(name@ == orig[gi].0);
                assert(pages.deep_view() == orig[gi].1);
                assert(rest@ =~= rest0.drop_first());
                assert forall|k: int| 0 <= k < rest@.len() implies rest.deep_view()[k] == orig.skip(
                    gi + 1,
                )[k] by {
                    assert(rest@[k] == rest0[k + 1]);
                    assert(rest.deep_view()[k] == rest0[k + 1].deep_view());
                    assert(orig.skip(gi)[k + 1] == rest0[k + 1].deep_view());
                    assert(orig.skip(gi + 1)[k] == orig.skip(gi)[k + 1]);
                }
                assert(rest.deep_view() =~~= orig.skip(gi + 1));
            }
            let sorted = sort_pages_exec(pages);
            let ghost out0 = out.deep_view();
            out.push((name, sorted));
            proof {
                assert(out.deep_view() =~~= out0.push((name@, sorted.deep_view())));
                assert forall|k: int| 0 <= k <= gi implies finalize_spec(orig.take(gi + 1))[k] == (
                    orig[k].0,
                    sort_pages(orig[k].1),
                ) by {
                    assert(orig.take(gi + 1)[k] == orig[k]);
                }
                assert forall|k: int| 0 <= k < gi implies finalize_spec(orig.take(gi))[k] == (
                    orig[k].0,
                    sort_pages(orig[k].1),
                ) by {
                    assert(orig.take(gi)[k] == orig[k]);
                }
                assert(out.deep_view() =~~= finalize_spec(orig.take(gi + 1)));
                gi = gi + 1;
            }
        }
        proof {
            assert(rest.deep_view().len() == rest@.len());
            assert(gi == orig.len());
            assert(orig.take(orig.len() as int) =~= orig);
        }
        SectionIndex { sections: out }
    }
}

} // verus!
