//! Character-level text utilities: conversion between `str` and
//! character vectors, whitespace trimming, line splitting and joining,
//! and `/`-separated path segment handling.

use vstd::prelude::*;

verus! {

/// The whitespace characters recognized when trimming text: space,
/// tab, carriage return, and line feed.
pub open spec fn is_space(c: char) -> bool {
    c == ' ' || c == '\t' || c == '\r' || c == '\n'
}

/// Executable counterpart of [`is_space`].
pub fn is_space_char(c: char) -> (r: bool)
    ensures
        r == is_space(c),
{
    c == ' ' || c == '\t' || c == '\r' || c == '\n'
}

/// `s` with its leading whitespace removed.
pub open spec fn trim_front(s: Seq<char>) -> Seq<char>
    decreases s.len(),
{
    if s.len() > 0 && is_space(s[0]) {
        trim_front(s.drop_first())
    } else {
        s
    }
}

/// `s` with its trailing whitespace removed.
pub open spec fn trim_back(s: Seq<char>) -> Seq<char>
    decreases s.len(),
{
    if s.len() > 0 && is_space(s.last()) {
        trim_back(s.drop_last())
    } else {
        s
    }
}

/// `s` with leading and trailing whitespace removed.
pub open spec fn trimmed(s: Seq<char>) -> Seq<char> {
    trim_back(trim_front(s))
}

proof fn lemma_trim_front_skip(s: Seq<char>, i: int)
    requires
        0 <= i <= s.len(),
        forall|k: int| 0 <= k < i ==> is_space(s[k]),
        i == s.len() || !is_space(s[i]),
    ensures
        trim_front(s) == s.skip(i),
    decreases i,
{
    if i == 0 {
        assert(s.skip(0) =~= s);
    } else {
        assert(is_space(s[0]));
        lemma_trim_front_skip(s.drop_first(), i - 1);
        assert(s.drop_first().skip(i - 1) =~= s.skip(i));
    }
}

proof fn lemma_trim_back_take(s: Seq<char>, i: int)
    requires
        0 <= i <= s.len(),
        forall|k: int| i <= k < s.len() ==> is_space(s[k]),
        i == 0 || !is_space(s[i - 1]),
    ensures
        trim_back(s) == s.take(i),
    decreases s.len() - i,
{
    if i == s.len() {
        assert(s.take(i) =~= s);
    } else {
        assert(is_space(s.last()));
        lemma_trim_back_take(s.drop_last(), i);
        assert(s.drop_last().take(i) =~= s.take(i));
    }
}

/// Copies the characters of `s` with leading and trailing whitespace
/// removed.
pub fn trim_chars(s: &Vec<char>) -> (r: Vec<char>)
    ensures
        r@ == trimmed(s@),
{
    let n = s.len();
    let mut lo: usize = 0;
    while lo < n && is_space_char(s[lo])
        invariant
            0 <= lo <= n,
            n == s.len(),
            forall|k: int| 0 <= k < lo ==> is_space(s@[k]),
        decreases n - lo,
    {
        lo += 1;
    }
    let mut hi: usize = n;
    while hi > lo && is_space_char(s[hi - 1])
        invariant
            lo <= hi <= n,
            n == s.len(),
            forall|k: int| hi <= k < n ==> is_space(s@[k]),
        decreases hi,
    {
        hi -= 1;
    }
    proof {
        lemma_trim_front_skip(s@, lo as int);
        if hi == lo {
            lemma_trim_back_take(s@.skip(lo as int), 0);
        } else {
            lemma_trim_back_take(s@.skip(lo as int), hi - lo);
        }
    }
    let mut r: Vec<char> = Vec::new();
    let mut k: usize = lo;
    while k < hi
        invariant
            lo <= k <= hi <= n,
            n == s.len(),
            r@ == s@.subrange(lo as int, k as int),
        decreases hi - k,
    {
        r.push(s[k]);
        proof {
            assert(r@ =~= s@.subrange(lo as int, k + 1 as int));
        }
        k += 1;
    }
    proof {
        assert(s@.skip(lo as int).take(hi - lo as int) =~= s@.subrange(lo as int, hi as int));
    }
    r
}

/// Collects the characters of `s`, in order.
pub fn to_chars(s: &str) -> (r: Vec<char>)
    ensures
        r@ == s@,
{
    let n = s.unicode_len();
    let mut r: Vec<char> = Vec::new();
    let mut i: usize = 0;
    while i < n
        invariant
            0 <= i <= n,
            n == s@.len(),
            r@ == s@.take(i as int),
        decreases n - i,
    {
        r.push(s.get_char(i));
        proof {
            assert(r@ =~= s@.take(i + 1 as int));
        }
        i += 1;
    }
    proof {
        assert(s@.take(n as int) =~= s@);
    }
    r
}

/// Index of the first line feed in `s`, or `s.len()` if there is none.
pub open spec fn first_nl(s: Seq<char>) -> int
    decreases s.len(),
{
    if s.len() == 0 {
        0
    } else if s[0] == '\n' {
        0
    } else {
        1 + first_nl(s.drop_first())
    }
}

proof fn lemma_first_nl(s: Seq<char>)
    ensures
        0 <= first_nl(s) <= s.len(),
        first_nl(s) < s.len() ==> s[first_nl(s)] == '\n',
        forall|k: int| 0 <= k < first_nl(s) ==> s[k] != '\n',
    decreases s.len(),
{
    if s.len() > 0 && s[0] != '\n' {
        lemma_first_nl(s.drop_first());
        assert forall|k: int| 0 <= k < first_nl(s) implies s[k] != '\n' by {
            if k > 0 {
                assert(s.drop_first()[k - 1] != '\n');
            }
        }
    }
}

/// A line with a single trailing carriage return removed, as happens
/// to the text before a line feed when a file uses `\r\n` endings.
pub open spec fn strip_cr(l: Seq<char>) -> Seq<char> {
    if l.len() > 0 && l.last() == '\r' {
        l.drop_last()
    } else {
        l
    }
}

/// The lines of `s`: maximal runs split at each line feed, a carriage
/// return immediately before a line feed removed, and no trailing
/// empty line when `s` ends with a line feed.
pub open spec fn split_lines(s: Seq<char>) -> Seq<Seq<char>>
    decreases s.len(),
{
    if s.len() == 0 {
        Seq::empty()
    } else {
        let i = first_nl(s);
        if i == s.len() {
            seq![s]
        } else if 0 <= i < s.len() {
            seq![strip_cr(s.take(i))] + split_lines(s.skip(i + 1))
        } else {
            Seq::empty()
        }
    }
}

proof fn lemma_split_no_nl(cur: Seq<char>)
    requires
        cur.len() > 0,
        forall|k: int| 0 <= k < cur.len() ==> cur[k] != '\n',
    ensures
        split_lines(cur) == seq![cur],
{
    lemma_first_nl(cur);
    if first_nl(cur) < cur.len() {
        assert(cur[first_nl(cur)] == '\n');
    }
}

proof fn lemma_first_nl_concat(cur: Seq<char>, rest: Seq<char>)
    requires
        forall|k: int| 0 <= k < cur.len() ==> cur[k] != '\n',
        rest.len() > 0,
        rest[0] == '\n',
    ensures
        first_nl(cur + rest) == cur.len(),
    decreases cur.len(),
{
    if cur.len() == 0 {
        assert(cur + rest =~= rest);
    } else {
        assert((cur + rest)[0] == cur[0]);
        lemma_first_nl_concat(cur.drop_first(), rest);
        assert((cur + rest).drop_first() =~= cur.drop_first() + rest);
    }
}

proof fn lemma_split_step(cur: Seq<char>, rest: Seq<char>)
    requires
        forall|k: int| 0 <= k < cur.len() ==> cur[k] != '\n',
        rest.len() > 0,
        rest[0] == '\n',
    ensures
        split_lines(cur + rest) == seq![strip_cr(cur)] + split_lines(rest.drop_first()),
{
    let s = cur + rest;
    lemma_first_nl_concat(cur, rest);
    assert(s.len() > 0);
    assert(first_nl(s) == cur.len() < s.len());
    assert(s.take(cur.len() as int) =~= cur);
    assert(s.skip(cur.len() as int + 1) =~= rest.drop_first());
}

/// Splits `s` into its lines, as [`split_lines`] describes.
pub fn split_lines_exec(s: &Vec<char>) -> (r: Vec<Vec<char>>)
    ensures
        r.deep_view() == split_lines(s@),
{
    let n = s.len();
    let mut out: Vec<Vec<char>> = Vec::new();
    let mut cur: Vec<char> = Vec::new();
    let mut i: usize = 0;
    proof {
        assert(cur@ + s@.skip(0) =~= s@);
        assert(out.deep_view() + split_lines(s@) =~~= split_lines(s@));
    }
    while i < n
        invariant
            i <= n,
            n == s.len(),
            forall|k: int| 0 <= k < cur@.len() ==> cur@[k] != '\n',
            split_lines(s@) == out.deep_view() + split_lines(cur@ + s@.skip(i as int)),
        decreases n - i,
    {
        let ghost old_out = out.deep_view();
        let ghost old_cur = cur@;
        let ghost rest = s@.skip(i as int);
        let c = s[i];
        proof {
            assert(rest[0] == c);
        }
        if c == '\n' {
            proof {
                lemma_split_step(old_cur, rest);
                assert(rest.drop_first() =~= s@.skip(i as int + 1));
            }
            let line = if cur.len() > 0 && cur[cur.len() - 1] == '\r' {
                let mut l = cur;
                l.pop();
                l
            } else {
                cur
            };
            proof {
                assert(line@ =~= strip_cr(old_cur));
            }
            out.push(line);
            cur = Vec::new();
            proof {
                assert(out.deep_view() =~~= old_out.push(strip_cr(old_cur)));
                assert(cur@ + s@.skip(i as int + 1) =~= s@.skip(i as int + 1));
                assert(old_out + (seq![strip_cr(old_cur)] + split_lines(s@.skip(i as int + 1)))
                    =~~= out.deep_view() + split_lines(s@.skip(i as int + 1)));
            }
        } else {
            cur.push(c);
            proof {
                assert(cur@ + s@.skip(i as int + 1) =~= old_cur + rest);
            }
        }
        i += 1;
    }
    proof {
        assert(cur@ + s@.skip(n as int) =~= cur@);
    }
    if cur.len() > 0 {
        let ghost old_out = out.deep_view();
        proof {
            lemma_split_no_nl(cur@);
        }
        out.push(cur);
        proof {
            assert(out.deep_view() =~~= old_out + split_lines(cur@));
        }
    } else {
        proof {
            assert(out.deep_view() + split_lines(cur@) =~~= out.deep_view());
        }
    }
    out
}

/// The lines of `ls` joined with a single line feed between
/// consecutive lines.
pub open spec fn join_lines(ls: Seq<Seq<char>>) -> Seq<char>
    decreases ls.len(),
{
    if ls.len() == 0 {
        Seq::empty()
    } else if ls.len() == 1 {
        ls[0]
    } else {
        ls[0] + seq!['\n'] + join_lines(ls.drop_first())
    }
}

/// Joins the lines `ls[from..to]` with line feeds, as [`join_lines`]
/// describes.
pub fn join_lines_range(ls: &Vec<Vec<char>>, from: usize, to: usize) -> (r: Vec<char>)
    requires
        from <= to <= ls@.len(),
    ensures
        r@ == join_lines(ls.deep_view().subrange(from as int, to as int)),
{
    let n = to;
    let ghost whole = ls.deep_view().subrange(from as int, to as int);
    let mut r: Vec<char> = Vec::new();
    let mut i: usize = from;
    proof {
        assert(ls.deep_view().subrange(from as int, to as int) =~~= whole);
        assert(r@ + join_lines(whole) =~= join_lines(whole));
    }
    while i < n
        invariant
            from <= i <= n,
            n == to <= ls.len(),
            whole == ls.deep_view().subrange(from as int, to as int),
            join_lines(whole) == r@ + join_lines(ls.deep_view().subrange(i as int, to as int)),
        decreases n - i,
    {
        let ghost tail = ls.deep_view().subrange(i as int, to as int);
        proof {
            assert(tail.len() == n - i);
            assert(tail[0] == ls.deep_view()[i as int]);
            assert(ls.deep_view()[i as int] == ls@[i as int].deep_view());
            assert(ls@[i as int].deep_view() =~= ls@[i as int]@);
            assert(tail.drop_first() =~~= ls.deep_view().subrange(i as int + 1, to as int));
        }
        let line = &ls[i];
        let mut k: usize = 0;
        let m = line.len();
        let ghost r0 = r@;
        while k < m
            invariant
                k <= m,
                m == line.len(),
                r@ == r0 + line@.take(k as int),
            decreases m - k,
        {
            r.push(line[k]);
            proof {
                assert(r@ =~= r0 + line@.take(k as int + 1));
            }
            k += 1;
        }
        proof {
            assert(line@.take(m as int) =~= line@);
        }
        if i + 1 < n {
            r.push('\n');
            proof {
                assert(r@ + join_lines(ls.deep_view().subrange(i as int + 1, to as int)) =~= r0
                    + (tail[0] + seq!['\n'] + join_lines(tail.drop_first())));
            }
        } else {
            proof {
                assert(tail.len() == 1);
                assert(join_lines(tail) == tail[0]);
                assert(ls.deep_view().subrange(i as int + 1, to as int)
                    =~~= Seq::<Seq<char>>::empty());
                assert(r@ + join_lines(ls.deep_view().subrange(i as int + 1, to as int)) =~= r0
                    + tail[0]);
            }
        }
        i += 1;
    }
    proof {
        assert(join_lines(ls.deep_view().subrange(n as int, to as int)) =~= Seq::<char>::empty());
        assert(r@ + Seq::<char>::empty() =~= r@);
    }
    r
}

/// Index of the last `/` in `s`, or `-1` if there is none.
pub open spec fn last_slash(s: Seq<char>) -> int
    decreases s.len(),
{
    if s.len() == 0 {
        -1
    } else if s.last() == '/' {
        s.len() - 1
    } else {
        last_slash(s.drop_last())
    }
}

/// The part of a `/`-separated path after its last `/`: the whole of
/// `s` when there is none.
pub open spec fn base_name(s: Seq<char>) -> Seq<char> {
    s.skip(last_slash(s) + 1)
}

/// The part of a `/`-separated path before its last `/`: empty when
/// there is none.
pub open spec fn dir_name(s: Seq<char>) -> Seq<char> {
    if last_slash(s) <= 0 {
        Seq::empty()
    } else {
        s.take(last_slash(s))
    }
}

proof fn lemma_last_slash_bounds(s: Seq<char>)
    ensures
        -1 <= last_slash(s) < s.len(),
    decreases s.len(),
{
    if s.len() > 0 && s.last() != '/' {
        lemma_last_slash_bounds(s.drop_last());
    }
}

/// One more than the index of the last `/` in `s`: `0` when there is
/// none.
pub fn last_slash_pos(s: &Vec<char>) -> (r: usize)
    ensures
        r as int == last_slash(s@) + 1,
{
    let n = s.len();
    let mut i: usize = n;
    proof {
        assert(s@.take(n as int) =~= s@);
        lemma_last_slash_bounds(s@.take(i as int));
    }
    while i > 0 && s[i - 1] != '/'
        invariant
            i <= n,
            n == s.len(),
            last_slash(s@) == last_slash(s@.take(i as int)),
        decreases i,
    {
        proof {
            assert(s@.take(i as int).drop_last() =~= s@.take(i as int - 1));
        }
        i -= 1;
    }
    proof {
        if i > 0 {
            assert(s@.take(i as int).last() == s@[i as int - 1]);
        }
        lemma_last_slash_bounds(s@.take(i as int));
    }
    i
}

/// Copies `s[from..to]`.
pub fn copy_range(s: &Vec<char>, from: usize, to: usize) -> (r: Vec<char>)
    requires
        from <= to <= s@.len(),
    ensures
        r@ == s@.subrange(from as int, to as int),
{
    let mut r: Vec<char> = Vec::new();
    let mut k: usize = from;
    while k < to
        invariant
            from <= k <= to <= s@.len(),
            r@ == s@.subrange(from as int, k as int),
        decreases to - k,
    {
        r.push(s[k]);
        proof {
            assert(r@ =~= s@.subrange(from as int, k as int + 1));
        }
        k += 1;
    }
    r
}

/// The part of `s` after its last `/`, as [`base_name`] describes.
pub fn base_name_exec(s: &Vec<char>) -> (r: Vec<char>)
    ensures
        r@ == base_name(s@),
{
    let pos = last_slash_pos(s);
    proof {
        lemma_last_slash_bounds(s@);
    }
    let r = copy_range(s, pos, s.len());
    proof {
        assert(r@ =~= base_name(s@));
    }
    r
}

/// The part of `s` before its last `/`, as [`dir_name`] describes.
pub fn dir_name_exec(s: &Vec<char>) -> (r: Vec<char>)
    ensures
        r@ == dir_name(s@),
{
    let pos = last_slash_pos(s);
    proof {
        lemma_last_slash_bounds(s@);
    }
    if pos <= 1 {
        let r: Vec<char> = Vec::new();
        proof {
            assert(r@ =~= dir_name(s@));
        }
        r
    } else {
        let r = copy_range(s, 0, pos - 1);
        proof {
            assert(r@ =~= dir_name(s@));
        }
        r
    }
}

/// `dir` and `name` joined with a `/`; just `name` when `dir` is
/// empty.
pub open spec fn join_path(dir: Seq<char>, name: Seq<char>) -> Seq<char> {
    if dir.len() == 0 {
        name
    } else {
        dir + seq!['/'] + name
    }
}

/// Joins two path segments, as [`join_path`] describes.
pub fn join_path_exec(dir: &Vec<char>, name: &Vec<char>) -> (r: Vec<char>)
    ensures
        r@ == join_path(dir@, name@),
{
    let mut r: Vec<char> = Vec::new();
    let nd = dir.len();
    let mut k: usize = 0;
    while k < nd
        invariant
            k <= nd,
            nd == dir.len(),
            r@ == dir@.take(k as int),
        decreases nd - k,
    {
        r.push(dir[k]);
        proof {
            assert(r@ =~= dir@.take(k as int + 1));
        }
        k += 1;
    }
    proof {
        assert(dir@.take(nd as int) =~= dir@);
    }
    if nd > 0 {
        r.push('/');
    }
    let nn = name.len();
    let ghost r0 = r@;
    let mut k2: usize = 0;
    while k2 < nn
        invariant
            k2 <= nn,
            nn == name.len(),
            r@ == r0 + name@.take(k2 as int),
        decreases nn - k2,
    {
        r.push(name[k2]);
        proof {
            assert(r@ =~= r0 + name@.take(k2 as int + 1));
        }
        k2 += 1;
    }
    proof {
        assert(name@.take(nn as int) =~= name@);
        assert(r@ =~= join_path(dir@, name@));
    }
    r
}

/// Whether the characters of `s` are exactly `v`.
pub fn str_eq_chars(s: &str, v: &Vec<char>) -> (r: bool)
    ensures
        r == (s@ == v@),
{
    let n = s.unicode_len();
    if n != v.len() {
        proof {
            assert(s@ != v@);
        }
        return false;
    }
    let mut i: usize = 0;
    while i < n
        invariant
            i <= n,
            n == s@.len() == v@.len(),
            forall|k: int| 0 <= k < i ==> s@[k] == v@[k],
        decreases n - i,
    {
        if s.get_char(i) != v[i] {
            proof {
                assert(s@ != v@);
            }
            return false;
        }
        i += 1;
    }
    proof {
        assert(s@ =~= v@);
    }
    true
}

/// Whether two string slices hold the same characters.
pub fn str_eq(a: &str, b: &str) -> (r: bool)
    ensures
        r == (a@ == b@),
{
    let n = a.unicode_len();
    if n != b.unicode_len() {
        proof {
            assert(a@ != b@);
        }
        return false;
    }
    let mut i: usize = 0;
    while i < n
        invariant
            i <= n,
            n == a@.len() == b@.len(),
            forall|k: int| 0 <= k < i ==> a@[k] == b@[k],
        decreases n - i,
    {
        if a.get_char(i) != b.get_char(i) {
            proof {
                assert(a@ != b@);
            }
            return false;
        }
        i += 1;
    }
    proof {
        assert(a@ =~= b@);
    }
    true
}

/// Builds a `String` from a sequence of characters, in order.
///
/// Relies on `String`'s `FromIterator<char>` implementation, which
/// concatenates the characters of the iterator in order.
#[verifier::external_body]
pub fn from_chars(v: &Vec<char>) -> (r: String)
    ensures
        r@ == v@,
{
    v.iter().collect()
}

} // verus!
