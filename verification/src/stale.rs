//! The output snapshot and the staleness oracle.
//!
//! Before generation, one scan of the output root records every existing
//! file's path and modification time.  During emission the oracle answers
//! whether an output is stale against its source: always, when the build
//! regenerates everything; by source-path containment, when the build is
//! restricted to subpaths; else by comparing the recorded output time with
//! the source time.  A page is also regenerated when a date-adjacent sibling
//! is stale, so that the cross-links embedded in its output stay consistent
//! — unless naive skipping is asked for.

use vstd::prelude::*;
use crate::page::Page;
use crate::paths::{path_eq, path_within, spec_path_within};

verus! {

/// A node of the previous build's output tree.
#[derive(Debug)]
pub enum ExistingTreeNode {
    /// An entry that could not be read.
    Unknown,
    /// A directory.
    NormalDir {
        /// Its path, as segments from the output root.
        path: Vec<String>,
    },
    /// A file.
    File {
        /// Its path, as segments from the output root.
        path: Vec<String>,
        /// Its recorded modification time.
        timestamp: i64,
    },
}

/// The previous build's outputs, indexed by path.
#[derive(Debug)]
pub struct OutputSnapshot {
    /// The recorded entries, path to node.
    pub entries: Vec<(Vec<String>, ExistingTreeNode)>,
}

/// The recorded node at `path`: the first entry whose path matches.
pub open spec fn spec_snapshot_find(
    entries: Seq<(Vec<String>, ExistingTreeNode)>,
    path: Seq<Seq<char>>,
) -> Option<ExistingTreeNode>
    decreases entries.len(),
{
    if entries.len() == 0 {
        None
    } else if entries[0].0.deep_view() == path {
        Some(entries[0].1)
    } else {
        spec_snapshot_find(entries.skip(1), path)
    }
}

/// Whether the output at `dest` is stale against a source changed at
/// `src_timestamp`: it is when no file is recorded there, or when the
/// recorded file is older than the source.
pub open spec fn spec_is_src_newer(
    entries: Seq<(Vec<String>, ExistingTreeNode)>,
    dest: Seq<Seq<char>>,
    src_timestamp: int,
) -> bool {
    match spec_snapshot_find(entries, dest) {
        Some(ExistingTreeNode::File { timestamp, .. }) => (timestamp as int) < src_timestamp,
        Some(_) => true,
        None => true,
    }
}

impl OutputSnapshot {
    /// The recorded node at `path`.
    pub fn lookup_existing_map(&self, path: &Vec<String>) -> (r: Option<&ExistingTreeNode>)
        ensures
            match r {
                Some(n) => spec_snapshot_find(self.entries@, path.deep_view()) == Some(*n),
                None => spec_snapshot_find(self.entries@, path.deep_view()) is None,
            },
    {
        let n = self.entries.len();
        let mut i: usize = 0;
        while i < n
            invariant
                i <= n,
                n == self.entries@.len(),
                forall|j: int|
                    0 <= j < i ==> #[trigger] self.entries@[j].0.deep_view() != path.deep_view(),
            decreases n - i,
        {
            if path_eq(&self.entries[i].0, path) {
                proof {
                    lemma_snapshot_first_match(self.entries@, i as int, path.deep_view());
                }
                return Some(&self.entries[i].1);
            }
            i += 1;
        }
        proof {
            lemma_snapshot_no_match(self.entries@, path.deep_view());
        }
        None
    }

    /// Whether the output at `dest` is stale against a source changed at
    /// `src_timestamp`.
    pub fn is_src_newer(&self, dest: &Vec<String>, src_timestamp: i64) -> (r: bool)
        ensures
            r == spec_is_src_newer(self.entries@, dest.deep_view(), src_timestamp as int),
    {
        match self.lookup_existing_map(dest) {
            Some(node) => match node {
                ExistingTreeNode::File { timestamp, .. } => *timestamp < src_timestamp,
                _ => true,
            },
            None => true,
        }
    }
}

/// Search lands on the first entry whose path matches.
proof fn lemma_snapshot_first_match(
    entries: Seq<(Vec<String>, ExistingTreeNode)>,
    i: int,
    path: Seq<Seq<char>>,
)
    requires
        0 <= i < entries.len(),
        entries[i].0.deep_view() == path,
        forall|j: int| 0 <= j < i ==> #[trigger] entries[j].0.deep_view() != path,
    ensures
        spec_snapshot_find(entries, path) == Some(entries[i].1),
    decreases i,
{
    if i > 0 {
        lemma_snapshot_first_match(entries.skip(1), i - 1, path);
    }
}

/// Search fails when no entry's path matches.
proof fn lemma_snapshot_no_match(entries: Seq<(Vec<String>, ExistingTreeNode)>, path: Seq<Seq<char>>)
    requires
        forall|j: int| 0 <= j < entries.len() ==> #[trigger] entries[j].0.deep_view() != path,
    ensures
        spec_snapshot_find(entries, path) is None,
    decreases entries.len(),
{
    if entries.len() > 0 {
        lemma_snapshot_no_match(entries.skip(1), path);
    }
}

/// How the build decides staleness: regenerate everything, restrict to
/// subpaths, or skip naively without sibling propagation.
#[derive(Debug)]
pub struct SkipSettings {
    /// Regenerate every artifact, skipping nothing.
    pub regen_all: bool,
    /// Consult only an artifact's own staleness, not its siblings'.
    pub naive_skip: bool,
    /// Rebuild only sources at or under these paths, when present.
    pub subpath: Option<Vec<Vec<String>>>,
}

/// Whether `path` lies at or under one of the restricted paths.
pub open spec fn spec_in_any_subpath(subpaths: Seq<Vec<String>>, path: Seq<Seq<char>>) -> bool {
    exists|i: int| 0 <= i < subpaths.len() && spec_path_within(path, subpaths[i].deep_view())
}

/// Whether `path` lies at or under one of the restricted paths.
pub fn in_any_subpath(subpaths: &Vec<Vec<String>>, path: &Vec<String>) -> (r: bool)
    ensures
        r == spec_in_any_subpath(subpaths@, path.deep_view()),
{
    let n = subpaths.len();
    let mut i: usize = 0;
    while i < n
        invariant
            i <= n,
            n == subpaths@.len(),
            forall|j: int|
                0 <= j < i ==> !spec_path_within(path.deep_view(), #[trigger] subpaths@[j].deep_view()),
        decreases n - i,
    {
        if path_within(path, &subpaths[i]) {
            return true;
        }
        i += 1;
    }
    false
}

/// Whether a static file is copied rather than skipped: always when the
/// build regenerates everything; with a subpath restriction, by source
/// containment (alone under naive skipping, combined otherwise); else when
/// its output is stale.
pub open spec fn spec_copy_static(
    st: SkipSettings,
    entries: Seq<(Vec<String>, ExistingTreeNode)>,
    src_path: Seq<Seq<char>>,
    dest: Seq<Seq<char>>,
    src_timestamp: int,
) -> bool {
    let base = st.regen_all || spec_is_src_newer(entries, dest, src_timestamp);
    match st.subpath {
        None => base,
        Some(sps) => if st.naive_skip {
            spec_in_any_subpath(sps@, src_path)
        } else {
            base && spec_in_any_subpath(sps@, src_path)
        },
    }
}

/// Whether a static file is copied rather than skipped.
pub fn decide_not_skip_static(
    st: &SkipSettings,
    snapshot: &OutputSnapshot,
    src_path: &Vec<String>,
    dest: &Vec<String>,
    src_timestamp: i64,
) -> (r: bool)
    ensures
        r == spec_copy_static(
            *st,
            snapshot.entries@,
            src_path.deep_view(),
            dest.deep_view(),
            src_timestamp as int,
        ),
{
    let base = st.regen_all || snapshot.is_src_newer(dest, src_timestamp);
    match &st.subpath {
        None => base,
        Some(sps) => {
            if st.naive_skip {
                in_any_subpath(sps, src_path)
            } else {
                base && in_any_subpath(sps, src_path)
            }
        },
    }
}

/// Whether a page's own output is stale.
pub open spec fn spec_page_self_stale(
    entries: Seq<(Vec<String>, ExistingTreeNode)>,
    pages: Seq<Page>,
    i: int,
) -> bool {
    spec_is_src_newer(entries, pages[i].dest_path.deep_view(), pages[i].source_timestamp as int)
}

/// Whether a page is regenerated rather than skipped: always when the build
/// regenerates everything; by source containment under a subpath
/// restriction; else when its own output is stale or — except under naive
/// skipping — when a date-adjacent sibling's output is stale.
pub open spec fn spec_regen_page(
    st: SkipSettings,
    entries: Seq<(Vec<String>, ExistingTreeNode)>,
    pages: Seq<Page>,
    i: int,
) -> bool {
    if st.regen_all {
        true
    } else if st.subpath is Some {
        spec_in_any_subpath(st.subpath->0@, pages[i].source_path.deep_view())
    } else {
        let self_stale = spec_page_self_stale(entries, pages, i);
        if st.naive_skip {
            self_stale
        } else {
            ||| self_stale
            ||| (match pages[i].next {
                Some(j) => 0 <= j < pages.len() && spec_page_self_stale(entries, pages, j as int),
                None => false,
            })
            ||| (match pages[i].last {
                Some(j) => 0 <= j < pages.len() && spec_page_self_stale(entries, pages, j as int),
                None => false,
            })
        }
    }
}

/// Whether a page is regenerated rather than skipped.
pub fn decide_not_skip_page(
    st: &SkipSettings,
    snapshot: &OutputSnapshot,
    pages: &Vec<Page>,
    i: usize,
) -> (r: bool)
    requires
        (i as int) < pages@.len(),
    ensures
        r == spec_regen_page(*st, snapshot.entries@, pages@, i as int),
{
    if st.regen_all {
        return true;
    }
    match &st.subpath {
        Some(sps) => {
            return in_any_subpath(sps, &pages[i].source_path);
        },
        None => {},
    }
    let self_stale = snapshot.is_src_newer(&pages[i].dest_path, pages[i].source_timestamp);
    if st.naive_skip {
        return self_stale;
    }
    let next_stale = match pages[i].next() {
        Some(j) => j < pages.len() && snapshot.is_src_newer(
            &pages[j].dest_path,
            pages[j].source_timestamp,
        ),
        None => false,
    };
    let last_stale = match pages[i].last() {
        Some(j) => j < pages.len() && snapshot.is_src_newer(
            &pages[j].dest_path,
            pages[j].source_timestamp,
        ),
        None => false,
    };
    self_stale || next_stale || last_stale
}

/// Sibling propagation: when a page's output is stale, its date-adjacent
/// neighbours are regenerated too — their rendered cross-links reference it.
/// Without naive skipping, a subpath restriction or a regenerate-all flag, a
/// page whose `next` or `last` sibling is stale is regenerated.
pub proof fn lemma_sibling_propagation(
    st: SkipSettings,
    entries: Seq<(Vec<String>, ExistingTreeNode)>,
    pages: Seq<Page>,
    i: int,
    j: usize,
)
    requires
        !st.regen_all,
        !st.naive_skip,
        st.subpath is None,
        0 <= i < pages.len(),
        (j as int) < pages.len(),
        pages[i].next == Some(j) || pages[i].last == Some(j),
        spec_page_self_stale(entries, pages, j as int),
    ensures
        spec_regen_page(st, entries, pages, i),
{
}

/// Idempotence of skipping: when nothing forces regeneration — no
/// regenerate-all flag, no subpath restriction — and every page's recorded
/// output is at least as new as its source, no page is regenerated.
pub proof fn lemma_fresh_outputs_skip_all(
    st: SkipSettings,
    entries: Seq<(Vec<String>, ExistingTreeNode)>,
    pages: Seq<Page>,
)
    requires
        !st.regen_all,
        st.subpath is None,
        forall|i: int| 0 <= i < pages.len() ==> !spec_page_self_stale(entries, pages, i),
    ensures
        forall|i: int| 0 <= i < pages.len() ==> !spec_regen_page(st, entries, pages, i),
{
}

} // verus!
