//! The site tree: classification, destination paths and sibling order.
//!
//! The builder receives a plain description of the source tree — directories,
//! page files already split into front matter and body, and static files —
//! and produces an arena of tree nodes and an arena of pages.  Every node's
//! destination path is its parent's destination path plus its own name, with
//! the extension substituted for pages; every page is registered in an
//! id-to-page table, and a duplicate id aborts the build.  Within each
//! directory, the pages (directly, or through a subdirectory's index page)
//! are ordered by date, newest first, and wired to their neighbours.

use vstd::prelude::*;
use vstd::string::*;
use vstd::seq_lib::group_to_multiset_ensures;
use vstd::multiset::group_multiset_axioms;
use crate::value::{
    FmValue, FmView, assoc_lookup, assoc_has, assoc_get, assoc_has_key, assoc_merge_under,
    assoc_set, dict_dup, lemma_assoc_lookup_push, str_eq,
};
use crate::page::Page;
use crate::paths::path_dup;
use crate::BuildError;

verus! {

broadcast use
    group_to_multiset_ensures,
    group_multiset_axioms,
    vstd::string::group_string_axioms,
    vstd::std_specs::vec::axiom_vec_decreases_to_view,
    vstd::std_specs::vec::axiom_vec_index_decreases,
;

/// A plain description of one source entry, as the scanner hands it over.
#[derive(Debug)]
pub enum SourceEntry {
    /// A directory and its entries.
    Dir {
        /// The directory's name.
        name: String,
        /// The entries inside it.
        entries: Vec<SourceEntry>,
    },
    /// A file whose extension marks it as a page, already split into front
    /// matter and body.
    PageFile {
        /// The file's name.
        name: String,
        /// The file's stem.
        stem: String,
        /// The file's extension.
        ext: String,
        /// The front-matter block's entries, or `None` where the file
        /// renounced the block.
        front_matter: Option<Vec<(String, FmValue)>>,
        /// The entries of the sidecar metadata file, empty where none exists.
        sidecar: Vec<(String, FmValue)>,
        /// The body after the front-matter block.
        body: String,
        /// The file's modification time.
        timestamp: i64,
    },
    /// Any other file, copied through unchanged.
    StaticFile {
        /// The file's name.
        name: String,
        /// The file's modification time.
        timestamp: i64,
        /// Where the scanner found the file, for the copy to read.
        source: Vec<String>,
    },
}

/// One node of the built site tree.
#[derive(Debug)]
pub enum SiteTreeNode {
    /// A directory.
    NormalDir {
        /// The directory's name.
        name: String,
        /// Its destination path, as segments from the output root.
        dest_path: Vec<String>,
        /// Its children, as arena indices; children precede their parent in
        /// the arena.
        children: Vec<usize>,
        /// Its index page, as a page-arena index, if a child page's stem is
        /// `index`.
        index: Option<usize>,
    },
    /// A page file.
    PageFile {
        /// The page, as a page-arena index.
        page: usize,
    },
    /// A static file.
    StaticFile {
        /// The file's name.
        name: String,
        /// Its destination path, as segments from the output root.
        dest_path: Vec<String>,
        /// The source file's modification time.
        timestamp: i64,
        /// Where the scanner found the file, for the copy to read.
        source: Vec<String>,
    },
}

/// The name of a source entry.
pub open spec fn source_name(e: SourceEntry) -> Seq<char> {
    match e {
        SourceEntry::Dir { name, .. } => name@,
        SourceEntry::PageFile { name, .. } => name@,
        SourceEntry::StaticFile { name, .. } => name@,
    }
}

/// Whether a name is reserved for the engine: it starts with `.` or `_`.
pub open spec fn spec_hidden_name(name: Seq<char>) -> bool {
    name.len() > 0 && (name[0] == '.' || name[0] == '_')
}

/// Whether a name is reserved for the engine.
pub fn name_is_hidden(name: &str) -> (r: bool)
    ensures
        r == spec_hidden_name(name@),
{
    let n = name.unicode_len();
    if n == 0 {
        return false;
    }
    let c = name.get_char(0);
    c == '.' || c == '_'
}

/// Whether a file with this extension is a page: the extension is in the
/// configured page-extension set.
pub open spec fn spec_is_page_ext(ext: Seq<char>, convert_ext: Seq<String>) -> bool {
    exists|i: int| 0 <= i < convert_ext.len() && convert_ext[i]@ == ext
}

/// Whether a file with this extension is a page.
pub fn is_page_ext(ext: &str, convert_ext: &Vec<String>) -> (r: bool)
    ensures
        r == spec_is_page_ext(ext@, convert_ext@),
{
    let n = convert_ext.len();
    let mut i: usize = 0;
    while i < n
        invariant
            i <= n,
            n == convert_ext@.len(),
            forall|j: int| 0 <= j < i ==> convert_ext@[j]@ != ext@,
        decreases n - i,
    {
        if str_eq(convert_ext[i].as_str(), ext) {
            return true;
        }
        i += 1;
    }
    false
}

/// Whether a page file is its directory's index page: its stem is `index`.
pub fn is_index_stem(stem: &str) -> (r: bool)
    ensures
        r == (stem@ == "index"@),
{
    str_eq(stem, "index")
}

/// The output extension a page file gets: the front matter's `to_ext` value
/// if it is a string, else the configured mapping for the source extension,
/// else `html`.
pub open spec fn spec_to_ext(
    fm: Seq<(String, FmValue)>,
    ext: Seq<char>,
    convert_to_ext: Seq<(String, String)>,
) -> Seq<char> {
    match assoc_lookup(fm, "to_ext"@) {
        Some(FmView::Text(t)) => t,
        _ => match assoc_lookup(convert_to_ext, ext) {
            Some(t) => t,
            None => "html"@,
        },
    }
}

/// The output extension a page file gets.
pub fn decide_to_ext(
    fm: &Vec<(String, FmValue)>,
    ext: &str,
    convert_to_ext: &Vec<(String, String)>,
) -> (r: String)
    ensures
        r@ == spec_to_ext(fm@, ext@, convert_to_ext@),
{
    match assoc_get(fm, "to_ext") {
        Some(v) => match v.as_text() {
            Some(t) => {
                return t.clone();
            },
            None => {},
        },
        None => {},
    }
    match assoc_get(convert_to_ext, ext) {
        Some(t) => t.clone(),
        None => "html".to_owned(),
    }
}

/// A page's output file name: its stem, a dot, its output extension.
pub open spec fn spec_output_name(stem: Seq<char>, to_ext: Seq<char>) -> Seq<char> {
    stem + seq!['.'] + to_ext
}

/// A page's output file name.
pub fn page_output_name(stem: &str, to_ext: &str) -> (r: String)
    ensures
        r@ == spec_output_name(stem@, to_ext@),
{
    proof {
        reveal_strlit(".");
    }
    let mut out = stem.to_owned();
    out.append(".");
    out.append(to_ext);
    proof {
        assert(out@ =~= spec_output_name(stem@, to_ext@));
    }
    out
}

/// A page's site-relative URL: the configured site prefix, a slash, the
/// source directory segments and the stem joined by slashes, a dot, the
/// output extension.
pub open spec fn spec_page_url(
    prefix: Seq<char>,
    dir: Seq<Seq<char>>,
    stem: Seq<char>,
    to_ext: Seq<char>,
) -> Seq<char> {
    prefix + seq!['/'] + crate::paths::join_view(dir.push(stem), '/') + seq!['.'] + to_ext
}

/// A page's site-relative URL.
pub fn page_url(site_url: &Option<String>, dir: &Vec<String>, stem: &str, to_ext: &str) -> (r:
    String)
    ensures
        r@ == spec_page_url(
            match site_url {
                Some(s) => s@,
                None => Seq::empty(),
            },
            dir.deep_view(),
            stem@,
            to_ext@,
        ),
{
    proof {
        reveal_strlit("/");
        reveal_strlit(".");
    }
    let mut out: String = match site_url {
        Some(s) => s.clone(),
        None => String::new(),
    };
    out.append("/");
    let mut segs = crate::paths::path_dup(dir);
    segs.push(stem.to_owned());
    proof {
        assert(segs.deep_view() =~= dir.deep_view().push(stem@));
    }
    let joined = crate::paths::join_segments(&segs);
    out.append(joined.as_str());
    out.append(".");
    out.append(to_ext);
    proof {
        assert(out@ =~= spec_page_url(
            match site_url {
                Some(s) => s@,
                None => Seq::empty(),
            },
            dir.deep_view(),
            stem@,
            to_ext@,
        ));
    }
    out
}

/// A node's destination path.
pub open spec fn node_dest(n: SiteTreeNode, pages: Seq<Page>) -> Seq<Seq<char>> {
    match n {
        SiteTreeNode::NormalDir { dest_path, .. } => dest_path.deep_view(),
        SiteTreeNode::PageFile { page } => if (page as int) < pages.len() {
            pages[page as int].dest_path.deep_view()
        } else {
            Seq::empty()
        },
        SiteTreeNode::StaticFile { dest_path, .. } => dest_path.deep_view(),
    }
}

/// A node's own name: the last segment of its destination path for pages,
/// the carried name otherwise.
pub open spec fn node_name(n: SiteTreeNode, pages: Seq<Page>) -> Seq<char> {
    match n {
        SiteTreeNode::NormalDir { name, .. } => name@,
        SiteTreeNode::PageFile { page } => if (page as int) < pages.len() {
            pages[page as int].dest_path.deep_view().last()
        } else {
            Seq::empty()
        },
        SiteTreeNode::StaticFile { name, .. } => name@,
    }
}

/// A directory node's children; other nodes have none.
pub open spec fn dir_children(n: SiteTreeNode) -> Seq<usize> {
    match n {
        SiteTreeNode::NormalDir { children, .. } => children@,
        _ => Seq::empty(),
    }
}

/// Whether a node's page references lie inside the page arena.
pub open spec fn node_pages_ok(n: SiteTreeNode, pages: Seq<Page>) -> bool {
    match n {
        SiteTreeNode::PageFile { page } => (page as int) < pages.len(),
        SiteTreeNode::NormalDir { index, .. } => match index {
            Some(p) => (p as int) < pages.len(),
            None => true,
        },
        SiteTreeNode::StaticFile { .. } => true,
    }
}

/// Well-formedness of the arena: page references lie inside the page arena;
/// every child index precedes its parent; and every child's destination path
/// is its parent's destination path plus the child's own name.
pub open spec fn tree_wf(nodes: Seq<SiteTreeNode>, pages: Seq<Page>) -> bool {
    &&& forall|d: int| 0 <= d < nodes.len() ==> node_pages_ok(#[trigger] nodes[d], pages)
    &&& forall|d: int, k: int|
        0 <= d < nodes.len() && 0 <= k < dir_children(nodes[d]).len() ==> {
            let c = #[trigger] dir_children(nodes[d])[k] as int;
            &&& 0 <= c < d
            &&& node_dest(nodes[c], pages) == node_dest(nodes[d], pages).push(
                node_name(nodes[c], pages),
            )
        }
}

/// Whether two pages agree on everything but their sibling links.
pub open spec fn same_but_links(a: Page, b: Page) -> bool {
    a == (Page { next: a.next, last: a.last, ..b })
}

/// Whether the pages' ids are pairwise distinct.
pub open spec fn pages_ids_distinct(pages: Seq<Page>) -> bool {
    forall|i: int, j: int|
        0 <= i < j < pages.len() ==> #[trigger] pages[i].page_id@ != #[trigger] pages[j].page_id@
}

/// Well-formedness of the id table: every page's id is bound, and every
/// bound id leads to the page bearing it.
pub open spec fn ids_wf(ids: Seq<(String, usize)>, pages: Seq<Page>) -> bool {
    &&& forall|i: int|
        0 <= i < pages.len() ==> assoc_has(ids, #[trigger] pages[i].page_id@)
    &&& forall|k: Seq<char>|
        (#[trigger] assoc_lookup(ids, k)) matches Some(j) ==> (j as int) < pages.len()
            && pages[j as int].page_id@ == k
}

/// Sorts page indices by date, newest first.  Ties keep the first-found
/// page first, so discovery order decides them.
/// Whether `x` stands somewhere before `y` in the sequence.
pub open spec fn spec_precedes(s: Seq<usize>, x: usize, y: usize) -> bool {
    exists|i: int, j: int| 0 <= i < j < s.len() && #[trigger] s[i] == x && #[trigger] s[j] == y
}

pub fn sort_pages_by_date(pages: &Vec<Page>, list: Vec<usize>) -> (r: Vec<usize>)
    requires
        forall|i: int| 0 <= i < list@.len() ==> (#[trigger] list@[i] as int) < pages@.len(),
    ensures
        r@.to_multiset() == list@.to_multiset(),
        r@.len() == list@.len(),
        forall|i: int| 0 <= i < r@.len() ==> (#[trigger] r@[i] as int) < pages@.len(),
        forall|i: int, j: int|
            0 <= i < j < r@.len() ==> pages@[r@[i] as int].date >= pages@[r@[j] as int].date,
        forall|i: int, j: int|
            0 <= i < j < r@.len() && pages@[r@[i] as int].date == pages@[r@[j] as int].date
                ==> spec_precedes(list@, r@[i], r@[j]),
{
    let mut work = list;
    let mut out: Vec<usize> = Vec::new();
    proof {
        assert forall|m1: int, m2: int| 0 <= m1 < m2 < work@.len() implies spec_precedes(
            list@,
            work@[m1],
            work@[m2],
        ) by {
            assert(list@[m1] == work@[m1] && list@[m2] == work@[m2]);
        }
    }
    while work.len() > 0
        invariant
            forall|i: int| 0 <= i < work@.len() ==> (#[trigger] work@[i] as int) < pages@.len(),
            forall|i: int| 0 <= i < out@.len() ==> (#[trigger] out@[i] as int) < pages@.len(),
            out@.to_multiset().add(work@.to_multiset()) == list@.to_multiset(),
            out@.len() + work@.len() == list@.len(),
            forall|i: int, j: int|
                0 <= i < j < out@.len() ==> pages@[out@[i] as int].date >= pages@[out@[j]
                    as int].date,
            forall|i: int, j: int|
                0 <= i < out@.len() && 0 <= j < work@.len() ==> pages@[out@[i] as int].date
                    >= pages@[work@[j] as int].date,
            forall|m1: int, m2: int|
                0 <= m1 < m2 < work@.len() ==> spec_precedes(list@, work@[m1], work@[m2]),
            forall|i: int, j: int|
                0 <= i < j < out@.len() && pages@[out@[i] as int].date == pages@[out@[j]
                    as int].date ==> spec_precedes(list@, out@[i], out@[j]),
            forall|i: int, m: int|
                0 <= i < out@.len() && 0 <= m < work@.len() && pages@[out@[i] as int].date
                    == pages@[work@[m] as int].date ==> spec_precedes(list@, out@[i], work@[m]),
        decreases work@.len(),
    {
        let n = work.len();
        let mut best: usize = 0;
        let mut k: usize = 1;
        while k < n
            invariant
                n == work@.len(),
                n > 0,
                best < k,
                k <= n,
                forall|i: int| 0 <= i < work@.len() ==> (#[trigger] work@[i] as int) < pages@.len(),
                forall|m: int|
                    0 <= m < k ==> pages@[work@[m] as int].date <= pages@[work@[best as int]
                        as int].date,
                forall|m: int|
                    0 <= m < best ==> pages@[work@[m] as int].date < pages@[work@[best as int]
                        as int].date,
            decreases n - k,
        {
            if pages[work[k]].date() > pages[work[best]].date() {
                best = k;
            }
            k += 1;
        }
        let ghost work_before = work@;
        let x = work.remove(best);
        out.push(x);
        proof {
            // the remaining entries keep their relative order, and any
            // remaining entry of the chosen date stood after the chosen one
            assert forall|m1: int, m2: int| 0 <= m1 < m2 < work@.len() implies spec_precedes(
                list@,
                work@[m1],
                work@[m2],
            ) by {
                let o1 = if m1 < best as int { m1 } else { m1 + 1 };
                let o2 = if m2 < best as int { m2 } else { m2 + 1 };
                assert(work@[m1] == work_before[o1] && work@[m2] == work_before[o2]);
            }
            assert forall|i: int, m: int|
                0 <= i < out@.len() && 0 <= m < work@.len() && pages@[out@[i] as int].date
                    == pages@[work@[m] as int].date implies spec_precedes(
                list@,
                out@[i],
                work@[m],
            ) by {
                let o = if m < best as int { m } else { m + 1 };
                assert(work@[m] == work_before[o]);
                if i < out@.len() - 1 {
                } else {
                    // the new entry: an equal-dated survivor stood after it
                    assert(o != best as int);
                    if o < best as int {
                        assert(pages@[work_before[o] as int].date < pages@[work_before[best as int]
                            as int].date);
                    }
                }
            }
        }
    }
    proof {
        assert(work@.to_multiset().len() == 0);
        assert(out@.to_multiset() =~= list@.to_multiset());
    }
    out
}

/// Wires each listed page to its neighbours in the list: `last` points at
/// the entry before it, `next` at the entry after it.  Pages off the list
/// are untouched; listed pages change only their links.
pub fn link_siblings(pages: &mut Vec<Page>, list: &Vec<usize>)
    requires
        forall|i: int| 0 <= i < list@.len() ==> (#[trigger] list@[i] as int) < old(pages)@.len(),
        forall|i: int, j: int| 0 <= i < j < list@.len() ==> list@[i] != list@[j],
    ensures
        final(pages)@.len() == old(pages)@.len(),
        forall|p: int|
            0 <= p < old(pages)@.len() ==> same_but_links(
                #[trigger] final(pages)@[p],
                old(pages)@[p],
            ),
        forall|p: int|
            0 <= p < old(pages)@.len() && !list@.contains(p as usize) ==> final(pages)@[p] == old(
                pages,
            )@[p],
        forall|i: int|
            0 <= i < list@.len() ==> {
                let p = #[trigger] list@[i] as int;
                &&& final(pages)@[p].last == (if i > 0 {
                    Some(list@[i - 1])
                } else {
                    None::<usize>
                })
                &&& final(pages)@[p].next == (if i + 1 < list@.len() {
                    Some(list@[i + 1])
                } else {
                    None::<usize>
                })
            },
{
    let n = list.len();
    let mut i: usize = 0;
    while i < n
        invariant
            i <= n,
            n == list@.len(),
            pages@.len() == old(pages)@.len(),
            forall|k: int| 0 <= k < list@.len() ==> (#[trigger] list@[k] as int) < pages@.len(),
            forall|k1: int, k2: int| 0 <= k1 < k2 < list@.len() ==> list@[k1] != list@[k2],
            forall|p: int|
                0 <= p < old(pages)@.len() ==> same_but_links(
                    #[trigger] pages@[p],
                    old(pages)@[p],
                ),
            forall|p: int|
                0 <= p < old(pages)@.len() && !list@.contains(p as usize) ==> pages@[p] == old(
                    pages,
                )@[p],
            forall|k: int|
                0 <= k < i ==> {
                    let p = #[trigger] list@[k] as int;
                    &&& pages@[p].last == (if k > 0 {
                        Some(list@[k - 1])
                    } else {
                        None::<usize>
                    })
                    &&& pages@[p].next == (if k + 1 < list@.len() {
                        Some(list@[k + 1])
                    } else {
                        None::<usize>
                    })
                },
        decreases n - i,
    {
        let p = list[i];
        let last_v: Option<usize> = if i > 0 {
            Some(list[i - 1])
        } else {
            None
        };
        let next_v: Option<usize> = if i + 1 < n {
            Some(list[i + 1])
        } else {
            None
        };
        pages[p].set_last(last_v);
        pages[p].set_next(next_v);
        proof {
            assert(list@.contains(list@[i as int]));
        }
        i += 1;
    }
}

/// What the build needs to know of the configuration while shaping the tree.
#[derive(Debug)]
pub struct TreeSettings {
    /// The source-extension to output-extension mapping.
    pub convert_to_ext: Vec<(String, String)>,
    /// The configured site-root URL prefix, if any.
    pub site_url: Option<String>,
    /// The clock's value, in seconds since the Unix epoch.
    pub now: i64,
    /// The clock's value as a date string.
    pub now_repr: String,
}

/// The value the effective front matter binds `key` to: a key bound by the
/// front-matter block wins; one bound only by the sidecar falls back to it;
/// and a page with no keys at all gets `to_ext: "html"` and `nolist: true`.
pub open spec fn spec_effective_fm_lookup(
    fm: Seq<(String, FmValue)>,
    sidecar: Seq<(String, FmValue)>,
    key: Seq<char>,
) -> Option<FmView> {
    if fm.len() == 0 && sidecar.len() == 0 {
        if key == "to_ext"@ {
            Some(FmView::Text("html"@))
        } else if key == "nolist"@ {
            Some(FmView::Bool(true))
        } else {
            None
        }
    } else if assoc_has(fm, key) {
        assoc_lookup(fm, key)
    } else {
        assoc_lookup(sidecar, key)
    }
}

/// The default front matter of a page that declared no keys.
fn default_front_matter() -> (r: Vec<(String, FmValue)>)
    ensures
        forall|k: Seq<char>|
            #![trigger assoc_lookup(r@, k)]
            assoc_lookup(r@, k) == (if k == "to_ext"@ {
                Some(FmView::Text("html"@))
            } else if k == "nolist"@ {
                Some(FmView::Bool(true))
            } else {
                None::<FmView>
            }),
{
    proof {
        reveal_strlit("to_ext");
        reveal_strlit("nolist");
        assert("to_ext"@.len() == 6);
        assert("nolist"@.len() == 6);
        assert("to_ext"@[0] == 't');
        assert("nolist"@[0] == 'n');
    }
    let mut out: Vec<(String, FmValue)> = Vec::new();
    let p1 = ("to_ext".to_owned(), FmValue::Text("html".to_owned()));
    proof {
        assert forall|k: Seq<char>| #[trigger] assoc_lookup(out@.push(p1), k) == (if k == "to_ext"@ {
            Some(FmView::Text("html"@))
        } else {
            None::<FmView>
        }) by {
            lemma_assoc_lookup_push(out@, p1, k);
        }
    }
    out.push(p1);
    let p2 = ("nolist".to_owned(), FmValue::Bool(true));
    let ghost mid = out@;
    proof {
        assert forall|k: Seq<char>| #[trigger] assoc_lookup(mid.push(p2), k) == (if k == "to_ext"@ {
            Some(FmView::Text("html"@))
        } else if k == "nolist"@ {
            Some(FmView::Bool(true))
        } else {
            None::<FmView>
        }) by {
            lemma_assoc_lookup_push(mid, p2, k);
        }
    }
    out.push(p2);
    out
}

/// The effective front matter of a page file: the block's entries, with the
/// sidecar's entries filling unbound keys, or the default front matter when
/// neither declares any key.
pub fn effective_front_matter(
    fm_opt: Option<Vec<(String, FmValue)>>,
    sidecar: &Vec<(String, FmValue)>,
) -> (r: Vec<(String, FmValue)>)
    ensures
        forall|k: Seq<char>|
            #![trigger assoc_lookup(r@, k)]
            assoc_lookup(r@, k) == spec_effective_fm_lookup(
                match fm_opt {
                    Some(v) => v@,
                    None => Seq::empty(),
                },
                sidecar@,
                k,
            ),
{
    let fm: Vec<(String, FmValue)> = match fm_opt {
        Some(v) => v,
        None => Vec::new(),
    };
    if fm.len() == 0 && sidecar.len() == 0 {
        default_front_matter()
    } else {
        assoc_merge_under(fm, sidecar)
    }
}

/// A change of pages that touches only sibling links (or appends pages)
/// leaves every node's page references, destination and name as they were.
proof fn lemma_node_facts_preserved(n: SiteTreeNode, pages1: Seq<Page>, pages2: Seq<Page>)
    requires
        pages1.len() <= pages2.len(),
        forall|p: int| 0 <= p < pages1.len() ==> same_but_links(#[trigger] pages2[p], pages1[p]),
        node_pages_ok(n, pages1),
    ensures
        node_pages_ok(n, pages2),
        node_dest(n, pages2) == node_dest(n, pages1),
        node_name(n, pages2) == node_name(n, pages1),
{
}

/// A change of pages that touches only sibling links (or appends pages)
/// keeps the arena well-formed.
proof fn lemma_tree_wf_links_only(nodes: Seq<SiteTreeNode>, pages1: Seq<Page>, pages2: Seq<Page>)
    requires
        tree_wf(nodes, pages1),
        pages1.len() <= pages2.len(),
        forall|p: int| 0 <= p < pages1.len() ==> same_but_links(#[trigger] pages2[p], pages1[p]),
    ensures
        tree_wf(nodes, pages2),
{
    assert forall|d: int| 0 <= d < nodes.len() implies node_pages_ok(
        #[trigger] nodes[d],
        pages2,
    ) by {
        lemma_node_facts_preserved(nodes[d], pages1, pages2);
    }
    assert forall|d: int, k: int|
        0 <= d < nodes.len() && 0 <= k < dir_children(nodes[d]).len() implies {
        let c = #[trigger] dir_children(nodes[d])[k] as int;
        &&& 0 <= c < d
        &&& node_dest(nodes[c], pages2) == node_dest(nodes[d], pages2).push(
            node_name(nodes[c], pages2),
        )
    } by {
        let c = dir_children(nodes[d])[k] as int;
        lemma_node_facts_preserved(nodes[c], pages1, pages2);
        lemma_node_facts_preserved(nodes[d], pages1, pages2);
    }
}

/// Appending a node whose children are consistent with it keeps the arena
/// well-formed.
proof fn lemma_tree_wf_push(nodes1: Seq<SiteTreeNode>, node: SiteTreeNode, pages: Seq<Page>)
    requires
        tree_wf(nodes1, pages),
        node_pages_ok(node, pages),
        forall|k: int|
            0 <= k < dir_children(node).len() ==> {
                let c = #[trigger] dir_children(node)[k] as int;
                &&& 0 <= c < nodes1.len()
                &&& node_dest(nodes1[c], pages) == node_dest(node, pages).push(
                    node_name(nodes1[c], pages),
                )
            },
    ensures
        tree_wf(nodes1.push(node), pages),
{
    let nodes2 = nodes1.push(node);
    assert forall|d: int| 0 <= d < nodes2.len() implies node_pages_ok(
        #[trigger] nodes2[d],
        pages,
    ) by {
        if d < nodes1.len() {
            assert(nodes2[d] == nodes1[d]);
        }
    }
    assert forall|d: int, k: int|
        0 <= d < nodes2.len() && 0 <= k < dir_children(nodes2[d]).len() implies {
        let c = #[trigger] dir_children(nodes2[d])[k] as int;
        &&& 0 <= c < d
        &&& node_dest(nodes2[c], pages) == node_dest(nodes2[d], pages).push(
            node_name(nodes2[c], pages),
        )
    } by {
        if d < nodes1.len() {
            assert(nodes2[d] == nodes1[d]);
            let c = dir_children(nodes1[d])[k] as int;
            assert(nodes2[c] == nodes1[c]);
        } else {
            let c = dir_children(node)[k] as int;
            assert(nodes2[c] == nodes1[c]);
        }
    }
}

/// Registering a fresh page under an unbound id keeps ids distinct and the
/// table well-formed.
proof fn lemma_register_page(
    ids1: Seq<(String, usize)>,
    ids2: Seq<(String, usize)>,
    pages1: Seq<Page>,
    pg: Page,
)
    requires
        pages_ids_distinct(pages1),
        ids_wf(ids1, pages1),
        !assoc_has(ids1, pg.page_id@),
        assoc_lookup(ids2, pg.page_id@) == Some(pages1.len() as usize),
        pages1.len() <= usize::MAX,
        forall|k: Seq<char>|
            k != pg.page_id@ ==> #[trigger] assoc_lookup(ids2, k) == assoc_lookup(ids1, k),
    ensures
        pages_ids_distinct(pages1.push(pg)),
        ids_wf(ids2, pages1.push(pg)),
{
    let pages2 = pages1.push(pg);
    assert forall|i: int, j: int| 0 <= i < j < pages2.len() implies #[trigger] pages2[i].page_id@
        != #[trigger] pages2[j].page_id@ by {
        if j == pages1.len() {
            assert(pages2[i] == pages1[i]);
            assert(assoc_has(ids1, pages1[i].page_id@));
        } else {
            assert(pages2[i] == pages1[i]);
            assert(pages2[j] == pages1[j]);
        }
    }
    assert forall|i: int| 0 <= i < pages2.len() implies assoc_has(
        ids2,
        #[trigger] pages2[i].page_id@,
    ) by {
        if i < pages1.len() {
            assert(pages2[i] == pages1[i]);
            if pages1[i].page_id@ != pg.page_id@ {
                assert(assoc_lookup(ids2, pages1[i].page_id@) == assoc_lookup(
                    ids1,
                    pages1[i].page_id@,
                ));
            }
        }
    }
    assert forall|k: Seq<char>|
        ((#[trigger] assoc_lookup(ids2, k)) matches Some(j) ==> (j as int) < pages2.len()
            && pages2[j as int].page_id@ == k) by {
        if k != pg.page_id@ {
            assert(assoc_lookup(ids2, k) == assoc_lookup(ids1, k));
            if assoc_lookup(ids1, k) is Some {
                let j = assoc_lookup(ids1, k)->0;
                assert((j as int) < pages1.len() && pages1[j as int].page_id@ == k);
                assert(pages2[j as int] == pages1[j as int]);
            }
        } else {
            assert(pages2[pages1.len() as int] == pg);
        }
    }
}


/// The prefix a settings value puts before every URL.
pub open spec fn spec_url_prefix(settings: TreeSettings) -> Seq<char> {
    match settings.site_url {
        Some(u) => u@,
        None => Seq::empty(),
    }
}

/// The entries of a page file's front-matter block, empty where the file
/// renounced the block.
pub open spec fn entry_fm_seq(front_matter: Option<Vec<(String, FmValue)>>) -> Seq<
    (String, FmValue),
> {
    match front_matter {
        Some(v) => v@,
        None => Seq::empty(),
    }
}

/// The source entries that are not hidden, in order.
pub open spec fn visible_entries(s: Seq<SourceEntry>) -> Seq<SourceEntry>
    decreases s.len(),
{
    if s.len() == 0 {
        Seq::empty()
    } else {
        (if spec_hidden_name(source_name(s[0])) {
            Seq::empty()
        } else {
            seq![s[0]]
        }) + visible_entries(s.skip(1))
    }
}

/// Reading one more entry extends the visible entries by that entry, or by
/// nothing where it is hidden.
pub proof fn lemma_visible_snoc(s: Seq<SourceEntry>, e: SourceEntry)
    ensures
        visible_entries(s.push(e)) == visible_entries(s) + (if spec_hidden_name(source_name(e)) {
            Seq::<SourceEntry>::empty()
        } else {
            seq![e]
        }),
    decreases s.len(),
{
    if s.len() == 0 {
        assert(s.push(e)[0] == e);
        assert(s.push(e).skip(1) =~= Seq::<SourceEntry>::empty());
        assert(visible_entries(Seq::<SourceEntry>::empty()) == Seq::<SourceEntry>::empty());
        if spec_hidden_name(source_name(e)) {
            assert(visible_entries(s.push(e)) =~= visible_entries(s));
        } else {
            assert(visible_entries(s.push(e)) =~= visible_entries(s) + seq![e]);
        }
    } else {
        assert(s.push(e).skip(1) =~= s.skip(1).push(e));
        lemma_visible_snoc(s.skip(1), e);
        assert(visible_entries(s.push(e)) =~= visible_entries(s) + (if spec_hidden_name(
            source_name(e),
        ) {
            Seq::<SourceEntry>::empty()
        } else {
            seq![e]
        }));
    }
}

/// The target extension a page file's entry yields.
pub open spec fn spec_entry_to_ext(e: SourceEntry, table: Seq<(String, String)>) -> Seq<char> {
    match spec_effective_fm_lookup(
        entry_fm_seq(e->PageFile_front_matter),
        e->PageFile_sidecar@,
        "to_ext"@,
    ) {
        Some(FmView::Text(t)) => t,
        _ => match assoc_lookup(table, e->PageFile_ext@) {
            Some(t) => t,
            None => "html"@,
        },
    }
}

/// The URL a page file's entry yields.
pub open spec fn spec_entry_url(
    e: SourceEntry,
    table: Seq<(String, String)>,
    prefix: Seq<char>,
    src_dir: Seq<Seq<char>>,
) -> Seq<char> {
    spec_page_url(prefix, src_dir, e->PageFile_stem@, spec_entry_to_ext(e, table))
}

/// The page id a page file's entry yields: the declared `page_id`, or the
/// generated id of the entry's URL.
pub open spec fn spec_entry_page_id(
    e: SourceEntry,
    table: Seq<(String, String)>,
    prefix: Seq<char>,
    src_dir: Seq<Seq<char>>,
) -> Seq<char> {
    match spec_effective_fm_lookup(
        entry_fm_seq(e->PageFile_front_matter),
        e->PageFile_sidecar@,
        "page_id"@,
    ) {
        Some(FmView::Text(s)) => s,
        _ => crate::ids::generated_page_id(spec_entry_url(e, table, prefix, src_dir)),
    }
}

/// Whether a built page carries exactly what a page file's entry declares:
/// the effective front matter, the body, the source path and timestamp, the
/// destination name `stem.target-extension` under the parent's destination,
/// the URL and the id the entry yields.
pub open spec fn page_matches(
    pg: Page,
    e: SourceEntry,
    table: Seq<(String, String)>,
    prefix: Seq<char>,
    src_dir: Seq<Seq<char>>,
    dest_dir: Seq<Seq<char>>,
) -> bool {
    let te = spec_entry_to_ext(e, table);
    &&& forall|k: Seq<char>|
        #![trigger assoc_lookup(pg.front_matter@, k)]
        assoc_lookup(pg.front_matter@, k) == spec_effective_fm_lookup(
            entry_fm_seq(e->PageFile_front_matter),
            e->PageFile_sidecar@,
            k,
        )
    &&& pg.body@ == e->PageFile_body@
    &&& pg.source_timestamp == e->PageFile_timestamp
    &&& pg.source_path.deep_view() == src_dir.push(e->PageFile_name@)
    &&& pg.dest_path.deep_view() == dest_dir.push(spec_output_name(e->PageFile_stem@, te))
    &&& (pg.to_ext matches Some(t) && t@ == te)
    &&& pg.url@ == spec_entry_url(e, table, prefix, src_dir)
    &&& pg.page_id@ == spec_entry_page_id(e, table, prefix, src_dir)
}

/// Whether the node at `c` is the built form of the source entry `e`: a
/// page file becomes a page node whose page matches the entry; a static
/// file becomes a static node carrying the entry's name, source and
/// timestamp; a directory becomes a directory node holding, in order, one
/// child per non-hidden entry, each the built form of its entry.
pub open spec fn node_represents(
    nodes: Seq<SiteTreeNode>,
    pages: Seq<Page>,
    c: int,
    e: SourceEntry,
    table: Seq<(String, String)>,
    prefix: Seq<char>,
    src_dir: Seq<Seq<char>>,
    dest_dir: Seq<Seq<char>>,
) -> bool
    decreases c,
{
    &&& 0 <= c < nodes.len()
    &&& match e {
        SourceEntry::Dir { name, entries } => match nodes[c] {
            SiteTreeNode::NormalDir { name: nm, dest_path, children, .. } => {
                &&& nm@ == name@
                &&& dest_path.deep_view() == dest_dir.push(name@)
                &&& children@.len() == visible_entries(entries@).len()
                &&& forall|k: int|
                    0 <= k < children@.len() ==> {
                        let cc = (#[trigger] children@[k]) as int;
                        &&& 0 <= cc < c
                        &&& node_represents(
                            nodes,
                            pages,
                            cc,
                            visible_entries(entries@)[k],
                            table,
                            prefix,
                            src_dir.push(name@),
                            dest_dir.push(name@),
                        )
                    }
            },
            _ => false,
        },
        SourceEntry::PageFile { .. } => match nodes[c] {
            SiteTreeNode::PageFile { page } => (page as int) < pages.len() && page_matches(
                pages[page as int],
                e,
                table,
                prefix,
                src_dir,
                dest_dir,
            ),
            _ => false,
        },
        SourceEntry::StaticFile { name, timestamp, source } => match nodes[c] {
            SiteTreeNode::StaticFile { name: nm, dest_path, timestamp: ts, source: src2 } => {
                &&& nm@ == name@
                &&& ts == timestamp
                &&& src2.deep_view() == source.deep_view()
                &&& dest_path.deep_view() == dest_dir.push(name@)
            },
            _ => false,
        },
    }
}

/// A change of the arenas that only appends nodes and pages, and touches
/// existing pages only in their sibling links, keeps every built form.
pub proof fn lemma_node_represents_preserved(
    nodes1: Seq<SiteTreeNode>,
    nodes2: Seq<SiteTreeNode>,
    pages1: Seq<Page>,
    pages2: Seq<Page>,
    c: int,
    e: SourceEntry,
    table: Seq<(String, String)>,
    prefix: Seq<char>,
    src_dir: Seq<Seq<char>>,
    dest_dir: Seq<Seq<char>>,
)
    requires
        node_represents(nodes1, pages1, c, e, table, prefix, src_dir, dest_dir),
        nodes1.len() <= nodes2.len(),
        forall|i: int| 0 <= i < nodes1.len() ==> #[trigger] nodes2[i] == nodes1[i],
        pages1.len() <= pages2.len(),
        forall|p: int| 0 <= p < pages1.len() ==> same_but_links(#[trigger] pages2[p], pages1[p]),
    ensures
        node_represents(nodes2, pages2, c, e, table, prefix, src_dir, dest_dir),
    decreases c,
{
    match e {
        SourceEntry::Dir { name, entries } => {
            assert(nodes2[c] == nodes1[c]);
            match nodes1[c] {
                SiteTreeNode::NormalDir { children, .. } => {
                    assert forall|k: int| 0 <= k < children@.len() implies {
                        let cc = (#[trigger] children@[k]) as int;
                        &&& 0 <= cc < c
                        &&& node_represents(
                            nodes2,
                            pages2,
                            cc,
                            visible_entries(entries@)[k],
                            table,
                            prefix,
                            src_dir.push(name@),
                            dest_dir.push(name@),
                        )
                    } by {
                        let cc = children@[k] as int;
                        lemma_node_represents_preserved(
                            nodes1,
                            nodes2,
                            pages1,
                            pages2,
                            cc,
                            visible_entries(entries@)[k],
                            table,
                            prefix,
                            src_dir.push(name@),
                            dest_dir.push(name@),
                        );
                    }
                },
                _ => {},
            }
        },
        SourceEntry::PageFile { .. } => {
            assert(nodes2[c] == nodes1[c]);
            match nodes1[c] {
                SiteTreeNode::PageFile { page } => {
                    assert(same_but_links(pages2[page as int], pages1[page as int]));
                },
                _ => {},
            }
        },
        SourceEntry::StaticFile { .. } => {
            assert(nodes2[c] == nodes1[c]);
        },
    }
}

/// The ids of the pages, in arena order.
pub open spec fn pages_ids(pages: Seq<Page>) -> Seq<Seq<char>> {
    Seq::new(pages.len(), |i: int| pages[i].page_id@)
}

/// The page ids one source entry yields, in discovery order: a page file
/// its own id, a directory its non-hidden entries' ids recursively, a
/// static file none.
pub open spec fn spec_entry_ids(
    e: SourceEntry,
    table: Seq<(String, String)>,
    prefix: Seq<char>,
    src_dir: Seq<Seq<char>>,
) -> Seq<Seq<char>>
    decreases e,
{
    match e {
        SourceEntry::PageFile { .. } => seq![spec_entry_page_id(e, table, prefix, src_dir)],
        SourceEntry::Dir { name, entries } => spec_source_ids(
            entries@,
            table,
            prefix,
            src_dir.push(name@),
        ),
        SourceEntry::StaticFile { .. } => Seq::empty(),
    }
}

/// The page ids a list of source entries yields, hidden entries skipped.
pub open spec fn spec_source_ids(
    s: Seq<SourceEntry>,
    table: Seq<(String, String)>,
    prefix: Seq<char>,
    src_dir: Seq<Seq<char>>,
) -> Seq<Seq<char>>
    decreases s,
{
    if s.len() == 0 {
        Seq::empty()
    } else {
        (if spec_hidden_name(source_name(s[0])) {
            Seq::empty()
        } else {
            spec_entry_ids(s[0], table, prefix, src_dir)
        }) + spec_source_ids(s.skip(1), table, prefix, src_dir)
    }
}

/// Reading one more entry extends the yielded ids by that entry's.
pub proof fn lemma_source_ids_snoc(
    s: Seq<SourceEntry>,
    e: SourceEntry,
    table: Seq<(String, String)>,
    prefix: Seq<char>,
    src_dir: Seq<Seq<char>>,
)
    ensures
        spec_source_ids(s.push(e), table, prefix, src_dir) == spec_source_ids(
            s,
            table,
            prefix,
            src_dir,
        ) + (if spec_hidden_name(source_name(e)) {
            Seq::<Seq<char>>::empty()
        } else {
            spec_entry_ids(e, table, prefix, src_dir)
        }),
    decreases s.len(),
{
    if s.len() == 0 {
        assert(s.push(e)[0] == e);
        assert(s.push(e).skip(1) =~= Seq::<SourceEntry>::empty());
        assert(spec_source_ids(Seq::<SourceEntry>::empty(), table, prefix, src_dir)
            == Seq::<Seq<char>>::empty());
        assert(spec_source_ids(s.push(e), table, prefix, src_dir) =~= spec_source_ids(
            s,
            table,
            prefix,
            src_dir,
        ) + (if spec_hidden_name(source_name(e)) {
            Seq::<Seq<char>>::empty()
        } else {
            spec_entry_ids(e, table, prefix, src_dir)
        }));
    } else {
        assert(s.push(e).skip(1) =~= s.skip(1).push(e));
        lemma_source_ids_snoc(s.skip(1), e, table, prefix, src_dir);
        assert(spec_source_ids(s.push(e), table, prefix, src_dir) =~= spec_source_ids(
            s,
            table,
            prefix,
            src_dir,
        ) + (if spec_hidden_name(source_name(e)) {
            Seq::<Seq<char>>::empty()
        } else {
            spec_entry_ids(e, table, prefix, src_dir)
        }));
    }
}

/// Whether `d` appears at two places in the sequence.
pub open spec fn spec_dup_id(s: Seq<Seq<char>>, d: Seq<char>) -> bool {
    exists|i: int, j: int| 0 <= i < j < s.len() && #[trigger] s[i] == d && #[trigger] s[j] == d
}

/// A repeated id stays repeated under any extension.
pub proof fn lemma_dup_id_extends(a: Seq<Seq<char>>, b: Seq<Seq<char>>, d: Seq<char>)
    requires
        spec_dup_id(a, d),
    ensures
        spec_dup_id(a + b, d),
{
    let (i, j) = choose|i: int, j: int| 0 <= i < j < a.len() && #[trigger] a[i] == d && #[trigger] a[j] == d;
    assert((a + b)[i] == a[i]);
    assert((a + b)[j] == a[j]);
}

/// The ids two entry lists yield, one after the other.
pub proof fn lemma_source_ids_concat(
    a: Seq<SourceEntry>,
    b: Seq<SourceEntry>,
    table: Seq<(String, String)>,
    prefix: Seq<char>,
    src_dir: Seq<Seq<char>>,
)
    ensures
        spec_source_ids(a + b, table, prefix, src_dir) == spec_source_ids(a, table, prefix, src_dir)
            + spec_source_ids(b, table, prefix, src_dir),
    decreases a.len(),
{
    if a.len() == 0 {
        assert(a + b =~= b);
        assert(spec_source_ids(a, table, prefix, src_dir) == Seq::<Seq<char>>::empty());
        assert(spec_source_ids(a + b, table, prefix, src_dir) =~= spec_source_ids(
            a,
            table,
            prefix,
            src_dir,
        ) + spec_source_ids(b, table, prefix, src_dir));
    } else {
        assert((a + b)[0] == a[0]);
        assert((a + b).skip(1) =~= a.skip(1) + b);
        lemma_source_ids_concat(a.skip(1), b, table, prefix, src_dir);
        assert(spec_source_ids(a + b, table, prefix, src_dir) =~= spec_source_ids(
            a,
            table,
            prefix,
            src_dir,
        ) + spec_source_ids(b, table, prefix, src_dir));
    }
}

/// Registers a page id: the id is bound to the page's arena slot, or the
/// build fails, exactly when the id is already taken.
pub fn register_page_id(ids: &mut Vec<(String, usize)>, id: String, idx: usize) -> (r: Result<
    (),
    BuildError,
>)
    ensures
        match r {
            Ok(_) => {
                &&& !assoc_has(old(ids)@, id@)
                &&& assoc_lookup(final(ids)@, id@) == Some(idx)
                &&& forall|k: Seq<char>|
                    k != id@ ==> assoc_lookup(final(ids)@, k) == assoc_lookup(old(ids)@, k)
            },
            Err(e) => {
                &&& e matches BuildError::DuplicateId(d) && d@ == id@
                &&& assoc_has(old(ids)@, id@)
                &&& final(ids)@ == old(ids)@
            },
        },
{
    if assoc_has_key(ids, id.as_str()) {
        return Err(BuildError::DuplicateId(id));
    }
    assoc_set(ids, id, idx);
    Ok(())
}

/// What building one entry guarantees on success: the arenas only grow
/// (existing pages changing at most their links), the new node is last,
/// well-formedness and id discipline hold, the node's destination extends
/// the parent's by its own name, any reported index page is fresh, the node
/// is the built form of the entry, and the page ids grew by exactly the
/// entry's.
pub open spec fn built_entry_ok(
    settings: TreeSettings,
    src: SourceEntry,
    src_dir: Seq<Seq<char>>,
    dest_dir: Seq<Seq<char>>,
    nodes0: Seq<SiteTreeNode>,
    pages0: Seq<Page>,
    ids0: Seq<(String, usize)>,
    nodes1: Seq<SiteTreeNode>,
    pages1: Seq<Page>,
    ids1: Seq<(String, usize)>,
    idx: usize,
    rep: Option<usize>,
) -> bool {
    &&& nodes0.len() < nodes1.len()
    &&& pages0.len() <= pages1.len()
    &&& forall|i: int| 0 <= i < nodes0.len() ==> #[trigger] nodes1[i] == nodes0[i]
    &&& forall|p: int|
        0 <= p < pages0.len() ==> same_but_links(#[trigger] pages1[p], pages0[p])
    &&& idx as int == nodes1.len() - 1
    &&& tree_wf(nodes1, pages1)
    &&& pages_ids_distinct(pages1)
    &&& ids_wf(ids1, pages1)
    &&& node_pages_ok(nodes1[idx as int], pages1)
    &&& node_dest(nodes1[idx as int], pages1) == dest_dir.push(
        node_name(nodes1[idx as int], pages1),
    )
    &&& (match nodes1[idx as int] {
        SiteTreeNode::PageFile { page } => pages0.len() <= (page as int) && (page as int)
            < pages1.len(),
        SiteTreeNode::NormalDir { index, .. } => match index {
            Some(p) => pages0.len() <= (p as int) && (p as int) < pages1.len(),
            None => true,
        },
        SiteTreeNode::StaticFile { .. } => true,
    })
    &&& (match rep {
        Some(p) => pages0.len() <= (p as int) && (p as int) < pages1.len(),
        None => true,
    })
    &&& node_represents(
        nodes1,
        pages1,
        idx as int,
        src,
        settings.convert_to_ext@,
        spec_url_prefix(settings),
        src_dir,
        dest_dir,
    )
    &&& pages_ids(pages1) == pages_ids(pages0) + spec_entry_ids(
        src,
        settings.convert_to_ext@,
        spec_url_prefix(settings),
        src_dir,
    )
}

/// What building one entry guarantees on failure: a duplicate-id error
/// whose id the pages so far and the entry together yield twice.
pub open spec fn built_entry_err(
    settings: TreeSettings,
    src: SourceEntry,
    src_dir: Seq<Seq<char>>,
    pages0: Seq<Page>,
    e: BuildError,
) -> bool {
    e matches BuildError::DuplicateId(d) && spec_dup_id(
        pages_ids(pages0) + spec_entry_ids(
            src,
            settings.convert_to_ext@,
            spec_url_prefix(settings),
            src_dir,
        ),
        d@,
    )
}

/// The effective front matter of a page-file entry's declared parts.
#[verifier::rlimit(60)]
#[verifier::spinoff_prover]
fn entry_effective_fm(
    front_matter: &Option<Vec<(String, FmValue)>>,
    sidecar: &Vec<(String, FmValue)>,
) -> (r: Vec<(String, FmValue)>)
    ensures
        forall|k: Seq<char>|
            #![trigger assoc_lookup(r@, k)]
            assoc_lookup(r@, k) == spec_effective_fm_lookup(
                entry_fm_seq(*front_matter),
                sidecar@,
                k,
            ),
{
    match front_matter {
        Some(v) => {
            let dup = dict_dup(v);
            let ghost dupv = dup@;
            let r = effective_front_matter(Some(dup), sidecar);
            proof {
                assert forall|k: Seq<char>| #[trigger] assoc_lookup(r@, k)
                    == spec_effective_fm_lookup(v@, sidecar@, k) by {
                    assert(assoc_lookup(r@, k) == spec_effective_fm_lookup(dupv, sidecar@, k));
                    assert(assoc_lookup(dupv, k) == assoc_lookup(v@, k));
                    assert(dupv.len() == v@.len());
                }
            }
            r
        },
        None => effective_front_matter(None, sidecar),
    }
}

/// Builds the page a page-file entry declares, with no sibling links yet.
#[verifier::rlimit(100)]
#[verifier::spinoff_prover]
fn make_page(
    settings: &TreeSettings,
    src: &SourceEntry,
    src_dir: &Vec<String>,
    dest_dir: &Vec<String>,
) -> (pg: Page)
    requires
        *src is PageFile,
    ensures
        page_matches(
            pg,
            *src,
            settings.convert_to_ext@,
            spec_url_prefix(*settings),
            src_dir.deep_view(),
            dest_dir.deep_view(),
        ),
        pg.next is None,
        pg.last is None,
        pg.page_id@ == spec_entry_page_id(
            *src,
            settings.convert_to_ext@,
            spec_url_prefix(*settings),
            src_dir.deep_view(),
        ),
{
    match src {
        SourceEntry::PageFile { name, stem, ext, front_matter, sidecar, body, timestamp } => {
            let fm_eff = entry_effective_fm(front_matter, sidecar);
            let to_ext = decide_to_ext(&fm_eff, ext.as_str(), &settings.convert_to_ext);
            let out_name = page_output_name(stem.as_str(), to_ext.as_str());
            let mut dest = path_dup(dest_dir);
            dest.push(out_name);
            let url = page_url(&settings.site_url, src_dir, stem.as_str(), to_ext.as_str());
            let mut source_path = path_dup(src_dir);
            source_path.push(name.clone());
            let pg = Page::new(
                fm_eff,
                url,
                source_path,
                dest,
                Some(to_ext),
                body.clone(),
                *timestamp,
                settings.now,
                settings.now_repr.clone(),
            );
            let ghost table = settings.convert_to_ext@;
            let ghost prefix = spec_url_prefix(*settings);
            proof {
                let ghost e = *src;
                // the effective front matter reads as the entry's does
                assert forall|k: Seq<char>| #[trigger] assoc_lookup(pg.front_matter@, k)
                    == spec_effective_fm_lookup(
                    entry_fm_seq(e->PageFile_front_matter),
                    e->PageFile_sidecar@,
                    k,
                ) by {
                    assert(assoc_lookup(fm_eff@, k) == spec_effective_fm_lookup(
                        entry_fm_seq(*front_matter),
                        sidecar@,
                        k,
                    ));
                }
                assert(to_ext@ == spec_entry_to_ext(e, table));
                assert(url@ == spec_entry_url(e, table, prefix, src_dir.deep_view()));
                assert(pg.dest_path.deep_view() == dest_dir.deep_view().push(
                    spec_output_name(e->PageFile_stem@, spec_entry_to_ext(e, table)),
                ));
                assert(pg.source_path.deep_view() == src_dir.deep_view().push(
                    e->PageFile_name@,
                ));
                assert(pg.page_id@ == spec_entry_page_id(e, table, prefix, src_dir.deep_view()));
                assert(page_matches(pg, e, table, prefix, src_dir.deep_view(), dest_dir.deep_view()));
            }
            pg
        },
        _ => {
            // the caller only hands over page files
            proof {
                assert(false);
            }
            Page::new(
                Vec::new(),
                String::new(),
                Vec::new(),
                Vec::new(),
                None,
                String::new(),
                0,
                0,
                String::new(),
            )
        },
    }
}

/// Builds the page node for one page-file entry.
#[verifier::rlimit(100)]
#[verifier::spinoff_prover]
fn build_page_node(
    settings: &TreeSettings,
    src: &SourceEntry,
    src_dir: &Vec<String>,
    dest_dir: &Vec<String>,
    nodes: &mut Vec<SiteTreeNode>,
    pages: &mut Vec<Page>,
    ids: &mut Vec<(String, usize)>,
) -> (r: Result<(usize, Option<usize>), BuildError>)
    requires
        tree_wf(old(nodes)@, old(pages)@),
        pages_ids_distinct(old(pages)@),
        ids_wf(old(ids)@, old(pages)@),
        *src is PageFile,
    ensures
        match r {
            Ok((idx, rep)) => built_entry_ok(
                *settings,
                *src,
                src_dir.deep_view(),
                dest_dir.deep_view(),
                old(nodes)@,
                old(pages)@,
                old(ids)@,
                final(nodes)@,
                final(pages)@,
                final(ids)@,
                idx,
                rep,
            ),
            Err(e) => built_entry_err(*settings, *src, src_dir.deep_view(), old(pages)@, e),
        },
{
    match src {
        SourceEntry::PageFile { name, stem, ext, front_matter, sidecar, body, timestamp } => {

            let pg = make_page(settings, src, src_dir, dest_dir);
            let ghost table = settings.convert_to_ext@;
            let ghost prefix = spec_url_prefix(*settings);
            let _ = (name, stem, ext, front_matter, sidecar, body, timestamp);
            let id = pg.get_page_id().clone();
            let pidx = pages.len();
            let ghost pages_before = pages@;
            let ghost ids_before = ids@;
            match register_page_id(ids, id, pidx) {
                Ok(_) => {},
                Err(e) => {
                    proof {
                        if let BuildError::DuplicateId(d) = &e {
                            let j0 = assoc_lookup(ids_before, d@)->0 as int;
                            let whole = pages_ids(old(pages)@) + spec_entry_ids(
                                *src,
                                table,
                                prefix,
                                src_dir.deep_view(),
                            );
                            assert(old(pages)@[j0].page_id@ == d@);
                            assert(whole[j0] == d@);
                            assert(whole[whole.len() - 1] == d@);
                            assert(spec_dup_id(whole, d@));
                        }
                    }
                    return Err(e);
                },
            }
            pages.push(pg);
            let idx = nodes.len();
            let node = SiteTreeNode::PageFile { page: pidx };
            proof {
                lemma_register_page(ids_before, ids@, pages_before, pages@[pidx as int]);
                assert forall|p: int| 0 <= p < pages_before.len() implies same_but_links(
                    #[trigger] pages@[p],
                    pages_before[p],
                ) by {
                    assert(pages@[p] == pages_before[p]);
                }
                lemma_tree_wf_links_only(nodes@, pages_before, pages@);
                assert(pages@[pidx as int].dest_path.deep_view() =~= dest_dir.deep_view().push(
                    pages@[pidx as int].dest_path.deep_view().last(),
                ));
                lemma_tree_wf_push(nodes@, node, pages@);
                assert(pages_ids(pages@) =~= pages_ids(old(pages)@) + spec_entry_ids(
                    *src,
                    table,
                    prefix,
                    src_dir.deep_view(),
                ));
            }
            nodes.push(node);
            proof {
                assert(node_represents(
                    nodes@,
                    pages@,
                    idx as int,
                    *src,
                    table,
                    prefix,
                    src_dir.deep_view(),
                    dest_dir.deep_view(),
                ));
            }
            let rep: Option<usize> = if is_index_stem(stem.as_str()) {
                Some(pidx)
            } else {
                None
            };
            Ok((idx, rep))
        },
        _ => {
            // the caller only hands over page files
            proof {
                assert(false);
            }
            Err(BuildError::DuplicateId(String::new()))
        },
    }
}

/// Builds the arena nodes for one source entry, appending to the arenas.
/// Returns the node's arena index and, for a page file whose stem is
/// `index`, the page's arena index for the parent directory to adopt.
#[verifier::rlimit(100)]
#[verifier::spinoff_prover]
pub fn build_node(
    settings: &TreeSettings,
    src: &SourceEntry,
    src_dir: &Vec<String>,
    dest_dir: &Vec<String>,
    nodes: &mut Vec<SiteTreeNode>,
    pages: &mut Vec<Page>,
    ids: &mut Vec<(String, usize)>,
) -> (r: Result<(usize, Option<usize>), BuildError>)
    requires
        tree_wf(old(nodes)@, old(pages)@),
        pages_ids_distinct(old(pages)@),
        ids_wf(old(ids)@, old(pages)@),
    ensures
        match r {
            Ok((idx, rep)) => built_entry_ok(
                *settings,
                *src,
                src_dir.deep_view(),
                dest_dir.deep_view(),
                old(nodes)@,
                old(pages)@,
                old(ids)@,
                final(nodes)@,
                final(pages)@,
                final(ids)@,
                idx,
                rep,
            ),
            Err(e) => built_entry_err(*settings, *src, src_dir.deep_view(), old(pages)@, e),
        },
    decreases *src,
{
    match src {
        SourceEntry::Dir { name, entries } => {
            proof {
                let ghost g = *src;
                assert(decreases_to!(g => g->Dir_entries));
                assert(decreases_to!(g->Dir_entries => g->Dir_entries@));
            }
            let mut new_src_dir = path_dup(src_dir);
            new_src_dir.push(name.clone());
            let mut new_dest = path_dup(dest_dir);
            new_dest.push(name.clone());
            let built = build_dir_children(
                settings,
                entries,
                &new_src_dir,
                &new_dest,
                nodes,
                pages,
                ids,
            );
            let ghost table = settings.convert_to_ext@;
            let ghost prefix = spec_url_prefix(*settings);
            proof {
                assert(new_src_dir.deep_view() =~= src_dir.deep_view().push(name@));
                assert(new_dest.deep_view() =~= dest_dir.deep_view().push(name@));
            }
            let (children, index) = match built {
                Ok(x) => x,
                Err(e) => {
                    proof {
                        if let BuildError::DuplicateId(d) = &e {
                            lemma_dup_id_extends(
                                pages_ids(old(pages)@) + spec_source_ids(
                                    entries@,
                                    table,
                                    prefix,
                                    new_src_dir.deep_view(),
                                ),
                                Seq::empty(),
                                d@,
                            );
                            assert(pages_ids(old(pages)@) + spec_source_ids(
                                entries@,
                                table,
                                prefix,
                                new_src_dir.deep_view(),
                            ) =~= pages_ids(old(pages)@) + spec_entry_ids(
                                *src,
                                table,
                                prefix,
                                src_dir.deep_view(),
                            ));
                        }
                    }
                    return Err(e);
                },
            };
            let ghost nodes_before = nodes@;
            let ghost pages_now = pages@;
            let idx = nodes.len();
            let node = SiteTreeNode::NormalDir {
                name: name.clone(),
                dest_path: new_dest,
                children,
                index,
            };
            proof {
                assert(node_dest(node, pages@) =~= dest_dir.deep_view().push(name@));
                lemma_tree_wf_push(nodes@, node, pages@);
            }
            nodes.push(node);
            proof {
                assert forall|k: int| 0 <= k < dir_children(nodes@[idx as int]).len() implies {
                    let cc = (#[trigger] dir_children(nodes@[idx as int])[k]) as int;
                    &&& 0 <= cc < idx as int
                    &&& node_represents(
                        nodes@,
                        pages@,
                        cc,
                        visible_entries(entries@)[k],
                        table,
                        prefix,
                        src_dir.deep_view().push(name@),
                        dest_dir.deep_view().push(name@),
                    )
                } by {
                    let cc = dir_children(nodes@[idx as int])[k] as int;
                    lemma_node_represents_preserved(
                        nodes_before,
                        nodes@,
                        pages_now,
                        pages@,
                        cc,
                        visible_entries(entries@)[k],
                        table,
                        prefix,
                        src_dir.deep_view().push(name@),
                        dest_dir.deep_view().push(name@),
                    );
                }
                assert(node_represents(
                    nodes@,
                    pages@,
                    idx as int,
                    *src,
                    table,
                    prefix,
                    src_dir.deep_view(),
                    dest_dir.deep_view(),
                ));
                assert(pages_ids(pages@) =~= pages_ids(old(pages)@) + spec_entry_ids(
                    *src,
                    table,
                    prefix,
                    src_dir.deep_view(),
                ));
            }
            Ok((idx, None))
        },
        SourceEntry::PageFile { .. } => build_page_node(
            settings,
            src,
            src_dir,
            dest_dir,
            nodes,
            pages,
            ids,
        ),
        SourceEntry::StaticFile { name, timestamp, source } => {
            let mut dest = path_dup(dest_dir);
            dest.push(name.clone());
            let idx = nodes.len();
            let node = SiteTreeNode::StaticFile {
                name: name.clone(),
                dest_path: dest,
                timestamp: *timestamp,
                source: path_dup(source),
            };
            proof {
                assert(node_dest(node, pages@) =~= dest_dir.deep_view().push(name@));
                lemma_tree_wf_push(nodes@, node, pages@);
            }
            nodes.push(node);
            proof {
                assert(node_represents(
                    nodes@,
                    pages@,
                    idx as int,
                    *src,
                    settings.convert_to_ext@,
                    spec_url_prefix(*settings),
                    src_dir.deep_view(),
                    dest_dir.deep_view(),
                ));
                assert(pages_ids(pages@) =~= pages_ids(old(pages)@) + spec_entry_ids(
                    *src,
                    settings.convert_to_ext@,
                    spec_url_prefix(*settings),
                    src_dir.deep_view(),
                ));
            }
            Ok((idx, None))
        },
    }
}

/// Builds the arena nodes for a directory's entries: entries whose name
/// starts with `.` or `_` are skipped; the rest are built in order; and the
/// directory's pages — direct page files, and each subdirectory's index page
/// — are sorted by date, newest first, and wired to their neighbours.
/// Returns the children's arena indices and the directory's index page.
pub fn build_dir_children(
    settings: &TreeSettings,
    entries: &Vec<SourceEntry>,
    src_dir: &Vec<String>,
    dest_dir: &Vec<String>,
    nodes: &mut Vec<SiteTreeNode>,
    pages: &mut Vec<Page>,
    ids: &mut Vec<(String, usize)>,
) -> (r: Result<(Vec<usize>, Option<usize>), BuildError>)
    requires
        tree_wf(old(nodes)@, old(pages)@),
        pages_ids_distinct(old(pages)@),
        ids_wf(old(ids)@, old(pages)@),
    ensures
        match r {
            Ok((children, index)) => {
                &&& old(nodes)@.len() <= final(nodes)@.len()
                &&& old(pages)@.len() <= final(pages)@.len()
                &&& forall|i: int|
                    0 <= i < old(nodes)@.len() ==> #[trigger] final(nodes)@[i] == old(nodes)@[i]
                &&& forall|p: int|
                    0 <= p < old(pages)@.len() ==> same_but_links(
                        #[trigger] final(pages)@[p],
                        old(pages)@[p],
                    )
                &&& tree_wf(final(nodes)@, final(pages)@)
                &&& pages_ids_distinct(final(pages)@)
                &&& ids_wf(final(ids)@, final(pages)@)
                &&& forall|m: int|
                    0 <= m < children@.len() ==> (#[trigger] children@[m] as int) < final(nodes)@.len()
                &&& forall|m: int|
                    0 <= m < children@.len() ==> node_pages_ok(
                        final(nodes)@[#[trigger] children@[m] as int],
                        final(pages)@,
                    )
                &&& forall|m: int|
                    0 <= m < children@.len() ==> node_dest(
                        final(nodes)@[#[trigger] children@[m] as int],
                        final(pages)@,
                    ) == dest_dir.deep_view().push(
                        node_name(final(nodes)@[children@[m] as int], final(pages)@),
                    )
                &&& (match index {
                    Some(p) => old(pages)@.len() <= (p as int) && (p as int) < final(pages)@.len(),
                    None => true,
                })
                &&& children@.len() == visible_entries(entries@).len()
                &&& forall|m: int|
                    0 <= m < children@.len() ==> node_represents(
                        final(nodes)@,
                        final(pages)@,
                        (#[trigger] children@[m]) as int,
                        visible_entries(entries@)[m],
                        settings.convert_to_ext@,
                        spec_url_prefix(*settings),
                        src_dir.deep_view(),
                        dest_dir.deep_view(),
                    )
                &&& pages_ids(final(pages)@) == pages_ids(old(pages)@) + spec_source_ids(
                    entries@,
                    settings.convert_to_ext@,
                    spec_url_prefix(*settings),
                    src_dir.deep_view(),
                )
            },
            Err(e) => e matches BuildError::DuplicateId(d) && spec_dup_id(
                pages_ids(old(pages)@) + spec_source_ids(
                    entries@,
                    settings.convert_to_ext@,
                    spec_url_prefix(*settings),
                    src_dir.deep_view(),
                ),
                d@,
            ),
        },
    decreases entries@,
{
    let ghost table = settings.convert_to_ext@;
    let ghost prefix = spec_url_prefix(*settings);
    let n = entries.len();
    let mut children: Vec<usize> = Vec::new();
    let mut reps: Vec<usize> = Vec::new();
    let mut dir_index: Option<usize> = None;
    let mut j: usize = 0;
    proof {
        assert(entries@.take(0) =~= Seq::<SourceEntry>::empty());
        assert(visible_entries(Seq::<SourceEntry>::empty()) == Seq::<SourceEntry>::empty());
        assert(spec_source_ids(Seq::<SourceEntry>::empty(), table, prefix, src_dir.deep_view())
            == Seq::<Seq<char>>::empty());
        assert(pages_ids(pages@) =~= pages_ids(old(pages)@) + Seq::<Seq<char>>::empty());
    }
    while j < n
        invariant
            j <= n,
            n == entries@.len(),
            old(nodes)@.len() <= nodes@.len(),
            old(pages)@.len() <= pages@.len(),
            forall|i: int| 0 <= i < old(nodes)@.len() ==> #[trigger] nodes@[i] == old(nodes)@[i],
            forall|p: int|
                0 <= p < old(pages)@.len() ==> same_but_links(
                    #[trigger] pages@[p],
                    old(pages)@[p],
                ),
            tree_wf(nodes@, pages@),
            pages_ids_distinct(pages@),
            ids_wf(ids@, pages@),
            forall|m: int|
                0 <= m < children@.len() ==> (#[trigger] children@[m] as int) < nodes@.len(),
            forall|m: int|
                0 <= m < children@.len() ==> node_pages_ok(
                    nodes@[#[trigger] children@[m] as int],
                    pages@,
                ),
            forall|m: int|
                0 <= m < children@.len() ==> node_dest(
                    nodes@[#[trigger] children@[m] as int],
                    pages@,
                ) == dest_dir.deep_view().push(
                    node_name(nodes@[children@[m] as int], pages@),
                ),
            forall|m: int|
                0 <= m < reps@.len() ==> old(pages)@.len() <= (#[trigger] reps@[m] as int)
                    < pages@.len(),
            forall|m1: int, m2: int| 0 <= m1 < m2 < reps@.len() ==> reps@[m1] != reps@[m2],
            match dir_index {
                Some(p) => old(pages)@.len() <= (p as int) && (p as int) < pages@.len(),
                None => true,
            },
            table == settings.convert_to_ext@,
            prefix == spec_url_prefix(*settings),
            children@.len() == visible_entries(entries@.take(j as int)).len(),
            forall|m: int|
                0 <= m < children@.len() ==> node_represents(
                    nodes@,
                    pages@,
                    (#[trigger] children@[m]) as int,
                    visible_entries(entries@.take(j as int))[m],
                    table,
                    prefix,
                    src_dir.deep_view(),
                    dest_dir.deep_view(),
                ),
            pages_ids(pages@) == pages_ids(old(pages)@) + spec_source_ids(
                entries@.take(j as int),
                table,
                prefix,
                src_dir.deep_view(),
            ),
        decreases n - j,
    {
        proof {
            assert(entries@.take(j + 1) =~= entries@.take(j as int).push(entries@[j as int]));
            lemma_visible_snoc(entries@.take(j as int), entries@[j as int]);
            lemma_source_ids_snoc(entries@.take(j as int), entries@[j as int], table, prefix, src_dir.deep_view());
        }
        let hidden = match &entries[j] {
            SourceEntry::Dir { name, .. } => name_is_hidden(name.as_str()),
            SourceEntry::PageFile { name, .. } => name_is_hidden(name.as_str()),
            SourceEntry::StaticFile { name, .. } => name_is_hidden(name.as_str()),
        };
        if !hidden {
            let ghost pages_mid = pages@;
            let ghost nodes_mid = nodes@;
            proof {
                assert(decreases_to!(entries@ => entries@[j as int]));
            }
            let built = build_node(settings, &entries[j], src_dir, dest_dir, nodes, pages, ids);
            let (ci, rep) = match built {
                Ok(x) => x,
                Err(e) => {
                    proof {
                        if let BuildError::DuplicateId(d) = &e {
                            let done = spec_source_ids(
                                entries@.take(j as int),
                                table,
                                prefix,
                                src_dir.deep_view(),
                            );
                            let this = spec_entry_ids(
                                entries@[j as int],
                                table,
                                prefix,
                                src_dir.deep_view(),
                            );
                            let rest = spec_source_ids(
                                entries@.skip(j + 1),
                                table,
                                prefix,
                                src_dir.deep_view(),
                            );
                            assert(entries@ =~= entries@.take(j as int) + entries@.skip(j as int));
                            lemma_source_ids_concat(
                                entries@.take(j as int),
                                entries@.skip(j as int),
                                table,
                                prefix,
                                src_dir.deep_view(),
                            );
                            assert(entries@.skip(j as int)[0] == entries@[j as int]);
                            assert(entries@.skip(j as int).skip(1) =~= entries@.skip(j + 1));
                            assert(spec_source_ids(
                                entries@.skip(j as int),
                                table,
                                prefix,
                                src_dir.deep_view(),
                            ) == this + rest);
                            assert(spec_dup_id(pages_ids(pages_mid) + this, d@));
                            assert(pages_ids(pages_mid) + this =~= (pages_ids(old(pages)@) + done)
                                + this);
                            lemma_dup_id_extends(
                                (pages_ids(old(pages)@) + done) + this,
                                rest,
                                d@,
                            );
                            assert(((pages_ids(old(pages)@) + done) + this) + rest =~= pages_ids(
                                old(pages)@,
                            ) + spec_source_ids(entries@, table, prefix, src_dir.deep_view()));
                        }
                    }
                    return Err(e);
                },
            };
            proof {
                assert forall|m: int| 0 <= m < children@.len() implies {
                    &&& node_pages_ok(nodes@[#[trigger] children@[m] as int], pages@)
                    &&& node_dest(nodes@[children@[m] as int], pages@)
                        == dest_dir.deep_view().push(
                        node_name(nodes@[children@[m] as int], pages@),
                    )
                } by {
                    let c = children@[m] as int;
                    assert(nodes@[c] == nodes_mid[c]);
                    lemma_node_facts_preserved(nodes@[c], pages_mid, pages@);
                }
                assert forall|m: int| 0 <= m < children@.len() implies node_represents(
                    nodes@,
                    pages@,
                    (#[trigger] children@[m]) as int,
                    visible_entries(entries@.take(j as int))[m],
                    table,
                    prefix,
                    src_dir.deep_view(),
                    dest_dir.deep_view(),
                ) by {
                    lemma_node_represents_preserved(
                        nodes_mid,
                        nodes@,
                        pages_mid,
                        pages@,
                        children@[m] as int,
                        visible_entries(entries@.take(j as int))[m],
                        table,
                        prefix,
                        src_dir.deep_view(),
                        dest_dir.deep_view(),
                    );
                }
            }
            let rep_from_node: Option<usize> = match &nodes[ci] {
                SiteTreeNode::PageFile { page } => Some(*page),
                SiteTreeNode::NormalDir { index, .. } => *index,
                SiteTreeNode::StaticFile { .. } => None,
            };
            children.push(ci);
            proof {
                let vis1 = visible_entries(entries@.take(j + 1));
                assert(vis1 == visible_entries(entries@.take(j as int)) + seq![
                    entries@[j as int],
                ]);
                assert(vis1[children@.len() - 1] == entries@[j as int]);
                assert forall|m: int| 0 <= m < children@.len() implies node_represents(
                    nodes@,
                    pages@,
                    (#[trigger] children@[m]) as int,
                    vis1[m],
                    table,
                    prefix,
                    src_dir.deep_view(),
                    dest_dir.deep_view(),
                ) by {
                    if m < children@.len() - 1 {
                        assert(vis1[m] == visible_entries(entries@.take(j as int))[m]);
                    }
                }
                assert(pages_ids(pages@) =~= pages_ids(old(pages)@) + spec_source_ids(
                    entries@.take(j + 1),
                    table,
                    prefix,
                    src_dir.deep_view(),
                ));
            }
            match rep_from_node {
                Some(p) => {
                    reps.push(p);
                },
                None => {},
            }
            match rep {
                Some(p) => {
                    dir_index = Some(p);
                },
                None => {},
            }
        } else {
            proof {
                assert(visible_entries(entries@.take(j + 1)) =~= visible_entries(
                    entries@.take(j as int),
                ));
                assert(spec_source_ids(entries@.take(j + 1), table, prefix, src_dir.deep_view())
                    =~= spec_source_ids(
                    entries@.take(j as int),
                    table,
                    prefix,
                    src_dir.deep_view(),
                ));
            }
        }
        j += 1;
    }
    let ghost pages_linked_from = pages@;
    let sorted = sort_pages_by_date(pages, reps);
    proof {
        reps@.lemma_multiset_has_no_duplicates();
        sorted@.lemma_multiset_has_no_duplicates_conv();
    }
    link_siblings(pages, &sorted);
    proof {
        assert(entries@.take(n as int) =~= entries@);
        lemma_tree_wf_links_only(nodes@, pages_linked_from, pages@);
        assert forall|m: int| 0 <= m < children@.len() implies {
            &&& node_pages_ok(nodes@[#[trigger] children@[m] as int], pages@)
            &&& node_dest(nodes@[children@[m] as int], pages@) == dest_dir.deep_view().push(
                node_name(nodes@[children@[m] as int], pages@),
            )
        } by {
            let c = children@[m] as int;
            lemma_node_facts_preserved(nodes@[c], pages_linked_from, pages@);
        }
        assert forall|m: int| 0 <= m < children@.len() implies node_represents(
            nodes@,
            pages@,
            (#[trigger] children@[m]) as int,
            visible_entries(entries@)[m],
            table,
            prefix,
            src_dir.deep_view(),
            dest_dir.deep_view(),
        ) by {
            lemma_node_represents_preserved(
                nodes@,
                nodes@,
                pages_linked_from,
                pages@,
                children@[m] as int,
                visible_entries(entries@)[m],
                table,
                prefix,
                src_dir.deep_view(),
                dest_dir.deep_view(),
            );
        }
        assert forall|p: int| 0 <= p < pages_linked_from.len() implies pages@[p].page_id@
            == pages_linked_from[p].page_id@ by {
            assert(same_but_links(pages@[p], pages_linked_from[p]));
        }
        assert(pages_ids(pages@) =~= pages_ids(pages_linked_from));
    }
    Ok((children, dir_index))
}

/// The built site: the node arena, the page arena, the root node and the
/// id-to-page table.
#[derive(Debug)]
pub struct SiteTree {
    /// The node arena; children precede their parent.
    pub nodes: Vec<SiteTreeNode>,
    /// The page arena.
    pub pages: Vec<Page>,
    /// The root directory node, last in the arena.
    pub root: usize,
    /// The id-to-page table.
    pub id_to_page: Vec<(String, usize)>,
}

impl SiteTree {
    /// Well-formedness: the arena is well-formed, ids are distinct and the
    /// table covers them, and the root is the last node, a directory at the
    /// output root.
    pub open spec fn wf(self) -> bool {
        &&& tree_wf(self.nodes@, self.pages@)
        &&& pages_ids_distinct(self.pages@)
        &&& ids_wf(self.id_to_page@, self.pages@)
        &&& self.nodes@.len() > 0
        &&& self.root as int == self.nodes@.len() - 1
        &&& self.nodes@[self.root as int] is NormalDir
        &&& node_dest(self.nodes@[self.root as int], self.pages@) == Seq::<Seq<char>>::empty()
    }
}

/// Builds the site tree from the root directory's entries.  Every child's
/// destination path extends its parent's by the child's own name; the
/// root's children are, in order, the built forms of the non-hidden entries
/// — hidden entries appear nowhere — and the pages' ids are, in discovery
/// order, exactly the ids the source yields.  The build fails, with the
/// duplicate id, exactly when the source yields some id twice.
pub fn build_site_tree(settings: &TreeSettings, entries: &Vec<SourceEntry>) -> (r: Result<
    SiteTree,
    BuildError,
>)
    ensures
        match r {
            Ok(t) => {
                &&& t.wf()
                &&& dir_children(t.nodes@[t.root as int]).len() == visible_entries(
                    entries@,
                ).len()
                &&& forall|k: int|
                    0 <= k < dir_children(t.nodes@[t.root as int]).len() ==> node_represents(
                        t.nodes@,
                        t.pages@,
                        (#[trigger] dir_children(t.nodes@[t.root as int])[k]) as int,
                        visible_entries(entries@)[k],
                        settings.convert_to_ext@,
                        spec_url_prefix(*settings),
                        Seq::empty(),
                        Seq::empty(),
                    )
                &&& pages_ids(t.pages@) == spec_source_ids(
                    entries@,
                    settings.convert_to_ext@,
                    spec_url_prefix(*settings),
                    Seq::empty(),
                )
            },
            Err(e) => e matches BuildError::DuplicateId(d) && spec_dup_id(
                spec_source_ids(
                    entries@,
                    settings.convert_to_ext@,
                    spec_url_prefix(*settings),
                    Seq::empty(),
                ),
                d@,
            ),
        },
{
    let mut nodes: Vec<SiteTreeNode> = Vec::new();
    let mut pages: Vec<Page> = Vec::new();
    let mut ids: Vec<(String, usize)> = Vec::new();
    let src_dir: Vec<String> = Vec::new();
    let dest_dir: Vec<String> = Vec::new();
    let built = build_dir_children(
        settings,
        entries,
        &src_dir,
        &dest_dir,
        &mut nodes,
        &mut pages,
        &mut ids,
    );
    let ghost table = settings.convert_to_ext@;
    let ghost prefix = spec_url_prefix(*settings);
    let (children, index) = match built {
        Ok(x) => x,
        Err(e) => {
            proof {
                if let BuildError::DuplicateId(d) = &e {
                    assert(src_dir.deep_view() =~= Seq::<Seq<char>>::empty());
                    assert(pages_ids(Seq::<Page>::empty()) =~= Seq::<Seq<char>>::empty());
                    assert(pages_ids(Seq::<Page>::empty()) + spec_source_ids(
                        entries@,
                        table,
                        prefix,
                        Seq::empty(),
                    ) =~= spec_source_ids(entries@, table, prefix, Seq::empty()));
                }
            }
            return Err(e);
        },
    };
    let ghost nodes_before = nodes@;
    let ghost pages_now = pages@;
    let root = nodes.len();
    let node = SiteTreeNode::NormalDir {
        name: String::new(),
        dest_path: Vec::new(),
        children,
        index,
    };
    proof {
        assert(node_dest(node, pages@) =~= Seq::<Seq<char>>::empty());
        assert(dest_dir.deep_view() =~= Seq::<Seq<char>>::empty());
        assert(src_dir.deep_view() =~= Seq::<Seq<char>>::empty());
        lemma_tree_wf_push(nodes@, node, pages@);
    }
    nodes.push(node);
    proof {
        assert forall|k: int| 0 <= k < dir_children(nodes@[root as int]).len()
            implies node_represents(
            nodes@,
            pages@,
            (#[trigger] dir_children(nodes@[root as int])[k]) as int,
            visible_entries(entries@)[k],
            table,
            prefix,
            Seq::empty(),
            Seq::empty(),
        ) by {
            lemma_node_represents_preserved(
                nodes_before,
                nodes@,
                pages_now,
                pages@,
                dir_children(nodes@[root as int])[k] as int,
                visible_entries(entries@)[k],
                table,
                prefix,
                Seq::empty(),
                Seq::empty(),
            );
        }
        assert(pages_ids(pages@) =~= spec_source_ids(entries@, table, prefix, Seq::empty()));
    }
    Ok(SiteTree { nodes, pages, root, id_to_page: ids })
}

} // verus!
