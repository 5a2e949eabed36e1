//! Pagination: splitting a resolved sequence into fixed-size batches.
//!
//! A page may declare a dotted-path expression into the render context; the
//! expression must walk nested mappings and end at a sequence.  The sequence
//! is split into `ceil(len / batch_size)` batches: batch zero keeps the
//! page's own destination path, and batch `i` lands at
//! `<dir>/<stem>/<i>.<ext>`.

use vstd::prelude::*;
use vstd::string::*;
use crate::value::{
    FmValue, FmView, assoc_get, view_dict_lookup, lemma_assoc_lookup_is_view_lookup, fm_dict_view,
    fm_list_view, lemma_fm_list_view_len, lemma_fm_list_view_index,
};
use crate::ids::{dec_digits, u64_to_decimal};
use crate::paths::path_dup;
use crate::BuildError;

verus! {

broadcast use vstd::string::group_string_axioms;

/// The number of batches a sequence of `n` items yields at `b` per batch:
/// `n / b`, rounded up.
pub open spec fn spec_batch_count(n: int, b: int) -> int {
    (n + b - 1) / b
}

/// Rounding up is exactly the ceiling: a full last batch adds nothing, a
/// partial one adds one.
pub proof fn lemma_batch_count_is_ceil(n: int, b: int)
    requires
        0 <= n,
        1 <= b,
    ensures
        n % b == 0 ==> spec_batch_count(n, b) == n / b,
        n % b != 0 ==> spec_batch_count(n, b) == n / b + 1,
        b * spec_batch_count(n, b) >= n,
        b * (spec_batch_count(n, b) - 1) < n,
{
    assert((n + b - 1) / b == if n % b == 0 {
        n / b
    } else {
        n / b + 1
    }) by (nonlinear_arith)
        requires
            0 <= n,
            1 <= b,
    ;
    assert(b * ((n + b - 1) / b) >= n && b * ((n + b - 1) / b - 1) < n) by (nonlinear_arith)
        requires
            0 <= n,
            1 <= b,
    ;
}

/// The number of batches `seq_len` items yield at `batch_size` per batch.
pub fn calc_batch_num(seq_len: usize, batch_size: usize) -> (r: usize)
    requires
        batch_size >= 1,
    ensures
        r as int == spec_batch_count(seq_len as int, batch_size as int),
        r <= seq_len,
{
    if seq_len == 0 {
        proof {
            lemma_batch_count_is_ceil(0, batch_size as int);
        }
        0
    } else {
        proof {
            assert(1 + (seq_len - 1) / (batch_size as int) == spec_batch_count(
                seq_len as int,
                batch_size as int,
            )) by (nonlinear_arith)
                requires
                    seq_len > 0,
                    batch_size >= 1,
            ;
            assert(spec_batch_count(seq_len as int, batch_size as int) <= seq_len)
                by (nonlinear_arith)
                requires
                    seq_len > 0,
                    batch_size >= 1,
            ;
        }
        1 + (seq_len - 1) / batch_size
    }
}

/// The index of the last `.` in a name, if any.
pub open spec fn spec_last_dot(s: Seq<char>) -> Option<int>
    decreases s.len(),
{
    if s.len() == 0 {
        None
    } else if s.last() == '.' {
        Some(s.len() - 1)
    } else {
        spec_last_dot(s.drop_last())
    }
}

/// A name's stem: what stands before the last `.`, or the whole name.
pub open spec fn spec_stem_of(s: Seq<char>) -> Seq<char> {
    match spec_last_dot(s) {
        Some(i) => s.take(i),
        None => s,
    }
}

/// A name's extension: what stands after the last `.`, or `html` where the
/// name has none, matching the engine's default output extension.
pub open spec fn spec_ext_of(s: Seq<char>) -> Seq<char> {
    match spec_last_dot(s) {
        Some(i) => s.skip(i + 1),
        None => "html"@,
    }
}

/// The index of the last `.` in a name, if any.
pub fn last_dot_index(s: &str) -> (r: Option<usize>)
    ensures
        match r {
            Some(i) => spec_last_dot(s@) == Some(i as int),
            None => spec_last_dot(s@) is None,
        },
{
    let n = s.unicode_len();
    let mut i: usize = n;
    proof {
        assert(s@.take(n as int) =~= s@);
    }
    while i > 0
        invariant
            i <= n,
            n == s@.len(),
            spec_last_dot(s@) == spec_last_dot(s@.take(i as int)),
        decreases i,
    {
        proof {
            assert(s@.take(i as int).last() == s@[i - 1]);
            assert(s@.take(i as int).drop_last() =~= s@.take(i - 1));
        }
        if s.get_char(i - 1) == '.' {
            return Some(i - 1);
        }
        i -= 1;
    }
    proof {
        assert(s@.take(0) =~= Seq::<char>::empty());
    }
    None
}

/// The last dot lies inside the name.
proof fn lemma_last_dot_in_range(s: Seq<char>)
    ensures
        spec_last_dot(s) matches Some(i) ==> 0 <= i < s.len(),
    decreases s.len(),
{
    if s.len() > 0 && s.last() != '.' {
        lemma_last_dot_in_range(s.drop_last());
    }
}

/// A name's stem and extension.
pub fn split_stem_ext(s: &str) -> (r: (String, String))
    ensures
        r.0@ == spec_stem_of(s@),
        r.1@ == spec_ext_of(s@),
{
    proof {
        lemma_last_dot_in_range(s@);
    }
    let n = s.unicode_len();
    match last_dot_index(s) {
        Some(i) => {
            let stem = s.substring_char(0, i).to_owned();
            let ext = s.substring_char(i + 1, n).to_owned();
            proof {
                assert(stem@ =~= spec_stem_of(s@));
                assert(ext@ =~= spec_ext_of(s@));
            }
            (stem, ext)
        },
        None => (s.to_owned(), "html".to_owned()),
    }
}

/// The destination path of batch `i`: batch zero keeps the base path, and
/// batch `i` is `<dir>/<stem>/<i>.<ext>` for the base path's stem and
/// extension.
pub open spec fn spec_batch_path(base: Seq<Seq<char>>, i: int) -> Seq<Seq<char>> {
    if i == 0 {
        base
    } else {
        base.drop_last().push(spec_stem_of(base.last())).push(
            dec_digits(i as nat) + seq!['.'] + spec_ext_of(base.last()),
        )
    }
}

/// The directory that holds the batches past the first: the base path with
/// its file name replaced by its stem.
pub open spec fn spec_base_url_dir(base: Seq<Seq<char>>) -> Seq<Seq<char>> {
    base.drop_last().push(spec_stem_of(base.last()))
}

/// A sequence split into batches, each batch paired with its destination.
#[derive(Debug)]
pub struct Paginator {
    /// The resolved items.
    pub seq: Vec<FmValue>,
    /// The declared batch size.
    pub batch_size: usize,
    /// The paginated page's own destination path.
    pub base_path: Vec<String>,
    /// One destination path per batch; batch zero keeps the page's own.
    pub batch_paths: Vec<Vec<String>>,
}

/// The destination paths of `batch_num` batches (at least one, so that an
/// empty sequence still owns its base path).
fn gen_batch_paths(batch_num: usize, base_path: &Vec<String>) -> (r: Vec<Vec<String>>)
    requires
        base_path@.len() >= 1,
    ensures
        r@.len() == (if batch_num >= 1 {
            batch_num as int
        } else {
            1
        }),
        forall|i: int|
            0 <= i < r@.len() ==> #[trigger] r@[i].deep_view() == spec_batch_path(
                base_path.deep_view(),
                i,
            ),
{
    proof {
        reveal_strlit(".");
    }
    let mut out: Vec<Vec<String>> = Vec::new();
    out.push(path_dup(base_path));
    let last = base_path.len() - 1;
    let (stem, ext) = split_stem_ext(base_path[last].as_str());
    let mut prefix: Vec<String> = Vec::new();
    let mut j: usize = 0;
    while j < last
        invariant
            j <= last,
            last == base_path@.len() - 1,
            prefix@ =~= base_path@.take(j as int),
        decreases last - j,
    {
        prefix.push(base_path[j].clone());
        proof {
            assert(prefix@ =~= base_path@.take(j + 1));
        }
        j += 1;
    }
    proof {
        assert(base_path.deep_view().last() == base_path@[last as int]@);
    }
    prefix.push(stem);
    proof {
        assert forall|k: int| 0 <= k < prefix@.len() implies prefix.deep_view()[k]
            == spec_base_url_dir(base_path.deep_view())[k] by {
            if k < last {
                assert(prefix@[k] == base_path@[k]);
            }
        }
        assert(prefix.deep_view() =~= spec_base_url_dir(base_path.deep_view()));
    }
    let mut i: usize = 1;
    while batch_num >= 1 && i < batch_num
        invariant
            1 <= i,
            batch_num >= 1 ==> i <= batch_num,
            batch_num == 0 ==> i == 1,
            base_path@.len() >= 1,
            prefix.deep_view() == spec_base_url_dir(base_path.deep_view()),
            ext@ == spec_ext_of(base_path.deep_view().last()),
            out@.len() == i,
            forall|k: int|
                0 <= k < i ==> #[trigger] out@[k].deep_view() == spec_batch_path(
                    base_path.deep_view(),
                    k,
                ),
            "."@ == seq!['.'],
        decreases (if batch_num >= 1 {
            batch_num as int
        } else {
            1
        }) - i,
    {
        let mut name = u64_to_decimal(i as u64);
        name.append(".");
        name.append(ext.as_str());
        let mut p = path_dup(&prefix);
        p.push(name);
        proof {
            assert(p.deep_view() =~= spec_batch_path(base_path.deep_view(), i as int));
        }
        out.push(p);
        i += 1;
    }
    out
}

/// Walking the dotted path through the context: every segment but the last
/// must land on a nested mapping, and the last on a sequence.
pub open spec fn spec_resolve_parts(m: Seq<(Seq<char>, FmView)>, parts: Seq<Seq<char>>) -> Option<
    Seq<FmView>,
>
    decreases parts.len(),
{
    if parts.len() == 0 {
        None
    } else {
        match view_dict_lookup(m, parts[0]) {
            Some(FmView::List(xs)) => if parts.len() == 1 {
                Some(xs)
            } else {
                None
            },
            Some(FmView::Dict(d)) => if parts.len() == 1 {
                None
            } else {
                spec_resolve_parts(d, parts.skip(1))
            },
            _ => None,
        }
    }
}

/// The first position of `sep` in `s`, if any.
pub open spec fn spec_find_char(s: Seq<char>, sep: char) -> Option<int>
    decreases s.len(),
{
    if s.len() == 0 {
        None
    } else if s[0] == sep {
        Some(0)
    } else {
        match spec_find_char(s.skip(1), sep) {
            Some(i) => Some(i + 1),
            None => None,
        }
    }
}

/// The found position lies inside the string, holds the separator, and
/// nothing before it does.
proof fn lemma_find_char_props(s: Seq<char>, sep: char)
    ensures
        spec_find_char(s, sep) matches Some(i) ==> 0 <= i < s.len() && s[i] == sep && (forall|
            j: int,
        |
            0 <= j < i ==> s[j] != sep),
        spec_find_char(s, sep) is None ==> forall|j: int| 0 <= j < s.len() ==> s[j] != sep,
    decreases s.len(),
{
    if s.len() > 0 && s[0] != sep {
        lemma_find_char_props(s.skip(1), sep);
        match spec_find_char(s.skip(1), sep) {
            Some(i) => {
                assert(s[i + 1] == s.skip(1)[i]);
                assert forall|j: int| 0 <= j < i + 1 implies s[j] != sep by {
                    if j > 0 {
                        assert(s.skip(1)[j - 1] == s[j]);
                    }
                }
            },
            None => {
                assert forall|j: int| 0 <= j < s.len() implies s[j] != sep by {
                    if j > 0 {
                        assert(s.skip(1)[j - 1] == s[j]);
                    }
                }
            },
        }
    }
}

/// The parts of a string split on a separator; a string without the
/// separator is one part.
pub open spec fn spec_split(s: Seq<char>, sep: char) -> Seq<Seq<char>>
    decreases s.len(),
{
    match spec_find_char(s, sep) {
        Some(i) => if 0 <= i < s.len() {
            seq![s.take(i)] + spec_split(s.skip(i + 1), sep)
        } else {
            seq![s]
        },
        None => seq![s],
    }
}

/// The first position of `sep` in `s`, if any.
fn find_char(s: &str, sep: char) -> (r: Option<usize>)
    ensures
        match r {
            Some(i) => spec_find_char(s@, sep) == Some(i as int),
            None => spec_find_char(s@, sep) is None,
        },
{
    let n = s.unicode_len();
    let mut i: usize = 0;
    while i < n
        invariant
            i <= n,
            n == s@.len(),
            forall|j: int| 0 <= j < i ==> s@[j] != sep,
        decreases n - i,
    {
        if s.get_char(i) == sep {
            proof {
                lemma_find_char_at(s@, i as int, sep);
            }
            return Some(i);
        }
        i += 1;
    }
    proof {
        lemma_find_char_none(s@, sep);
    }
    None
}

/// The scan's first hit is what the search finds.
proof fn lemma_find_char_at(s: Seq<char>, i: int, sep: char)
    requires
        0 <= i < s.len(),
        s[i] == sep,
        forall|j: int| 0 <= j < i ==> s[j] != sep,
    ensures
        spec_find_char(s, sep) == Some(i),
    decreases i,
{
    if i > 0 {
        lemma_find_char_at(s.skip(1), i - 1, sep);
    }
}

/// A string without the separator yields no position.
proof fn lemma_find_char_none(s: Seq<char>, sep: char)
    requires
        forall|j: int| 0 <= j < s.len() ==> s[j] != sep,
    ensures
        spec_find_char(s, sep) is None,
    decreases s.len(),
{
    if s.len() > 0 {
        lemma_find_char_none(s.skip(1), sep);
    }
}

/// The parts of a string split on a separator.
pub fn split_on_char(s: &str, sep: char) -> (r: Vec<String>)
    ensures
        r.deep_view() == spec_split(s@, sep),
    decreases s@.len(),
{
    proof {
        lemma_find_char_props(s@, sep);
    }
    match find_char(s, sep) {
        Some(i) => {
            let n = s.unicode_len();
            let head = s.substring_char(0, i).to_owned();
            let tail = s.substring_char(i + 1, n);
            proof {
                assert(tail@ == s@.skip(i + 1));
            }
            let mut rest = split_on_char(tail, sep);
            proof {
                assert(head@ == s@.take(i as int));
            }
            rest.insert(0, head);
            proof {
                assert(rest.deep_view() =~= spec_split(s@, sep));
            }
            rest
        },
        None => {
            let mut out: Vec<String> = Vec::new();
            out.push(s.to_owned());
            proof {
                assert(out.deep_view() =~= spec_split(s@, sep));
            }
            out
        },
    }
}

impl Paginator {
    /// Wraps an already-resolved sequence.
    pub fn new(seq: Vec<FmValue>, batch_size: usize, base_path: Vec<String>) -> (r: Paginator)
        requires
            batch_size >= 1,
            base_path@.len() >= 1,
        ensures
            r.seq == seq,
            r.batch_size == batch_size,
            r.base_path == base_path,
            r.batch_paths@.len() >= 1,
            forall|i: int|
                0 <= i < r.batch_paths@.len() ==> #[trigger] r.batch_paths@[i].deep_view()
                    == spec_batch_path(base_path.deep_view(), i),
            r.batch_paths@.len() == (if spec_batch_count(seq@.len() as int, batch_size as int)
                >= 1 {
                spec_batch_count(seq@.len() as int, batch_size as int)
            } else {
                1
            }),
    {
        let num = calc_batch_num(seq.len(), batch_size);
        let batch_paths = gen_batch_paths(num, &base_path);
        Paginator { seq, batch_size, base_path, batch_paths }
    }

    /// Resolves the declared expression against the render context and wraps
    /// the sequence it lands on.  The walk fails — and the page's pagination
    /// is skipped — when any segment is missing, a middle segment is not a
    /// mapping, or the last segment is not a sequence.
    pub fn from_expression_and_object(
        globals: &Vec<(String, FmValue)>,
        expression: &String,
        batch_size: usize,
        base_path: Vec<String>,
    ) -> (r: Result<Paginator, BuildError>)
        requires
            batch_size >= 1,
            base_path@.len() >= 1,
        ensures
            match r {
                Ok(p) => {
                    &&& spec_resolve_parts(
                        fm_dict_view(globals@),
                        spec_split(expression@, '.'),
                    ) == Some(p.seq.deep_view())
                    &&& p.batch_size == batch_size
                    &&& p.base_path == base_path
                    &&& forall|i: int|
                        0 <= i < p.batch_paths@.len() ==> #[trigger] p.batch_paths@[i].deep_view()
                            == spec_batch_path(base_path.deep_view(), i)
                    &&& p.batch_paths@.len() == (if spec_batch_count(
                        p.seq@.len() as int,
                        batch_size as int,
                    ) >= 1 {
                        spec_batch_count(p.seq@.len() as int, batch_size as int)
                    } else {
                        1
                    })
                },
                Err(e) => {
                    &&& spec_resolve_parts(
                        fm_dict_view(globals@),
                        spec_split(expression@, '.'),
                    ) is None
                    &&& e is PaginationExpressionInvalid
                },
            },
    {
        let parts = split_on_char(expression.as_str(), '.');
        let n = parts.len();
        let ghost all_parts = parts.deep_view();
        let mut cur: &Vec<(String, FmValue)> = globals;
        let mut i: usize = 0;
        proof {
            assert(all_parts.len() == n);
            assert(all_parts.skip(0) =~= all_parts);
        }
        while i < n
            invariant
                i < n || n == 0,
                n == parts@.len(),
                batch_size >= 1,
                base_path@.len() >= 1,
                all_parts == parts.deep_view(),
                all_parts == spec_split(expression@, '.'),
                all_parts.len() == n,
                spec_resolve_parts(fm_dict_view(globals@), all_parts) == spec_resolve_parts(
                    fm_dict_view(cur@),
                    all_parts.skip(i as int),
                ),
            decreases n - i,
        {
            proof {
                assert(all_parts.skip(i as int)[0] == all_parts[i as int]);
                assert(all_parts[i as int] == parts@[i as int]@);
                lemma_assoc_lookup_is_view_lookup(cur@, parts@[i as int]@);
            }
            let found = assoc_get(cur, parts[i].as_str());
            match found {
                Some(v) => match v {
                    FmValue::List(xs) => {
                        if i + 1 == n {
                            let items = crate::value::list_dup(xs);
                            proof {
                                assert(all_parts.skip(i as int).len() == 1);
                                crate::value::lemma_list_deep_view(items);
                                lemma_fm_list_view_len(xs@);
                                assert forall|k: int| 0 <= k < xs@.len() implies fm_list_view(
                                    xs@,
                                )[k] == xs.deep_view()[k] by {
                                    lemma_fm_list_view_index(xs@, k);
                                }
                                assert(xs.deep_view() =~= fm_list_view(xs@));
                            }
                            let p = Paginator::new(items, batch_size, base_path);
                            return Ok(p);
                        } else {
                            return Err(BuildError::PaginationExpressionInvalid);
                        }
                    },
                    FmValue::Dict(d) => {
                        if i + 1 == n {
                            return Err(BuildError::PaginationExpressionInvalid);
                        }
                        proof {
                            assert(all_parts.skip(i as int).skip(1) =~= all_parts.skip(i + 1));
                        }
                        cur = d;
                    },
                    _ => {
                        return Err(BuildError::PaginationExpressionInvalid);
                    },
                },
                None => {
                    return Err(BuildError::PaginationExpressionInvalid);
                },
            }
            i += 1;
        }
        proof {
            assert(all_parts.skip(0) =~= all_parts);
            if n == 0 {
                assert(spec_resolve_parts(fm_dict_view(globals@), all_parts) is None);
            }
        }
        Err(BuildError::PaginationExpressionInvalid)
    }

    /// The number of batches.
    pub fn batch_num(&self) -> (r: usize)
        requires
            self.batch_size >= 1,
        ensures
            r as int == spec_batch_count(self.seq@.len() as int, self.batch_size as int),
    {
        calc_batch_num(self.seq.len(), self.batch_size)
    }

    /// The destination paths of the batches.
    pub fn batch_paths(&self) -> (r: &Vec<Vec<String>>)
        ensures
            r == &self.batch_paths,
    {
        &self.batch_paths
    }

    /// The directory that holds the batches past the first.
    pub fn base_url_dir(&self) -> (r: Vec<String>)
        requires
            self.base_path@.len() >= 1,
        ensures
            r.deep_view() == spec_base_url_dir(self.base_path.deep_view()),
    {
        let last = self.base_path.len() - 1;
        let (stem, _ext) = split_stem_ext(self.base_path[last].as_str());
        let mut out: Vec<String> = Vec::new();
        let mut j: usize = 0;
        while j < last
            invariant
                j <= last,
                last == self.base_path@.len() - 1,
                out@ =~= self.base_path@.take(j as int),
            decreases last - j,
        {
            out.push(self.base_path[j].clone());
            proof {
                assert(out@ =~= self.base_path@.take(j + 1));
            }
            j += 1;
        }
        out.push(stem);
        proof {
            assert(self.base_path.deep_view().last() == self.base_path@[last as int]@);
            assert forall|k: int| 0 <= k < out@.len() implies out.deep_view()[k]
                == spec_base_url_dir(self.base_path.deep_view())[k] by {
                if k < last {
                    assert(out@[k] == self.base_path@[k]);
                }
            }
            assert(out.deep_view() =~= spec_base_url_dir(self.base_path.deep_view()));
        }
        out
    }

    /// The batch iterator: each step yields one batch and its destination.
    pub fn batch_iter(&self) -> (r: BatchIterator<FmValue, Vec<String>>)
        ensures
            r.items.deep_view() == self.seq.deep_view(),
            r.come_with_batch.deep_view() == self.batch_paths.deep_view(),
            r.come_with_batch@.len() == self.batch_paths@.len(),
            r.batch == self.batch_size,
            r.current_batch == 0,
    {
        let items = crate::value::list_dup(&self.seq);
        let mut paths: Vec<Vec<String>> = Vec::new();
        let n = self.batch_paths.len();
        let mut i: usize = 0;
        while i < n
            invariant
                i <= n,
                n == self.batch_paths@.len(),
                paths@.len() == i,
                forall|k: int|
                    0 <= k < i ==> (#[trigger] paths@[k]).deep_view()
                        == self.batch_paths@[k].deep_view(),
            decreases n - i,
        {
            paths.push(path_dup(&self.batch_paths[i]));
            i += 1;
        }
        proof {
            assert(paths.deep_view() =~= self.batch_paths.deep_view());
        }
        BatchIterator::new(items, paths, self.batch_size)
    }

    /// The paginator object handed to templates: the full item sequence
    /// under `items`, and the batch count under `batch_num`.
    pub fn gen_paginator_object(&self) -> (r: Vec<(String, FmValue)>)
        requires
            self.batch_size >= 1,
            spec_batch_count(self.seq@.len() as int, self.batch_size as int) <= i64::MAX,
        ensures
            r@.len() == 2,
            r@[0].0@ == "items"@,
            r@[0].1@ == FmView::List(self.seq.deep_view()),
            r@[1].0@ == "batch_num"@,
            r@[1].1@ == FmView::Int(
                spec_batch_count(self.seq@.len() as int, self.batch_size as int),
            ),
    {
        let items = crate::value::list_dup(&self.seq);
        let num = self.batch_num();
        let mut out: Vec<(String, FmValue)> = Vec::new();
        proof {
            lemma_fm_list_view_len(items@);
            assert forall|k: int| 0 <= k < items@.len() implies fm_list_view(items@)[k]
                == items.deep_view()[k] by {
                lemma_fm_list_view_index(items@, k);
            }
            assert(fm_list_view(items@) =~= items.deep_view());
        }
        out.push(("items".to_owned(), FmValue::List(items)));
        out.push(("batch_num".to_owned(), FmValue::Int(num as i64)));
        out
    }
}

/// Yields a sequence's items in fixed-size batches, pairing each batch with
/// the matching element of a second list.
#[derive(Debug)]
pub struct BatchIterator<T, U> {
    /// The items not yet yielded.
    pub items: Vec<T>,
    /// The per-batch companions not yet yielded.
    pub come_with_batch: Vec<U>,
    /// The batch size.
    pub batch: usize,
    /// How many batches have been yielded.
    pub current_batch: usize,
}

impl<T, U> BatchIterator<T, U> {
    /// Pairs an item list with a companion list.
    pub fn new(items: Vec<T>, come_with_batch: Vec<U>, batch: usize) -> (r: BatchIterator<T, U>)
        ensures
            r.items == items,
            r.come_with_batch == come_with_batch,
            r.batch == batch,
            r.current_batch == 0,
    {
        BatchIterator { items, come_with_batch, batch, current_batch: 0 }
    }

    /// How many batches have been yielded.
    pub fn current_batch(&self) -> (r: usize)
        ensures
            r == self.current_batch,
    {
        self.current_batch
    }

    /// Yields the next batch — up to `batch` items off the front — and its
    /// companion, or nothing once the items are exhausted.
    pub fn next_batch(&mut self) -> (r: Option<(U, Vec<T>)>)
        requires
            old(self).batch >= 1,
            old(self).current_batch < usize::MAX,
            old(self).items@.len() > 0 ==> old(self).come_with_batch@.len() > 0,
        ensures
            old(self).items@.len() == 0 ==> r is None && *final(self) == *old(self),
            old(self).items@.len() > 0 ==> {
                let k = (if old(self).batch <= old(self).items@.len() {
                    old(self).batch as int
                } else {
                    old(self).items@.len() as int
                });
                &&& (r matches Some((u, v)) && u == old(self).come_with_batch@[0] && v@ == old(
                    self,
                ).items@.take(k))
                &&& final(self).items@ == old(self).items@.skip(k)
                &&& final(self).come_with_batch@ == old(self).come_with_batch@.skip(1)
                &&& final(self).batch == old(self).batch
                &&& final(self).current_batch == old(self).current_batch + 1
            },
    {
        let n = self.items.len();
        if n == 0 {
            return None;
        }
        let k = if self.batch <= n {
            self.batch
        } else {
            n
        };
        let mut taken: Vec<T> = Vec::new();
        let mut i: usize = 0;
        while i < k
            invariant
                i <= k,
                k <= old(self).items@.len(),
                taken@.len() == i,
                taken@ =~= old(self).items@.take(i as int),
                self.items@ =~= old(self).items@.skip(i as int),
                self.come_with_batch == old(self).come_with_batch,
                self.batch == old(self).batch,
                self.current_batch == old(self).current_batch,
            decreases k - i,
        {
            proof {
                assert(old(self).items@.skip(i as int)[0] == old(self).items@[i as int]);
                assert(old(self).items@.skip(i as int).skip(1) =~= old(self).items@.skip(i + 1));
                assert(old(self).items@.take(i as int).push(old(self).items@[i as int]) =~= old(
                    self,
                ).items@.take(i + 1));
            }
            let x = self.items.remove(0);
            taken.push(x);
            i += 1;
        }
        let u = self.come_with_batch.remove(0);
        self.current_batch = self.current_batch + 1;
        Some((u, taken))
    }
}

} // verus!
