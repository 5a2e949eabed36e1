//! The site: assembling the render context and planning emission.
//!
//! The build runs in two phases.  The build phase constructs the tree and
//! the page arena, aggregates taxonomies, sorts pages by date and assembles
//! the objects templates see (`site`, `sitetree`, `taxo`, `all_pages`,
//! `id_to_page`).  The emission phase walks the tree and decides, per
//! artifact, whether to write it; the writes themselves, like every
//! filesystem and template call, happen with the caller.

use vstd::prelude::*;
use vstd::string::*;
use crate::value::{FmValue, FmView, assoc_lookup, assoc_has};
use crate::page::Page;
use crate::tree::{SiteTree, SiteTreeNode, dir_children, tree_wf, sort_pages_by_date};
use crate::stale::{OutputSnapshot, SkipSettings, spec_copy_static, spec_regen_page};
use crate::paginate::{spec_stem_of, spec_ext_of};
use crate::paths::{join_view, join_segments};
use crate::page::spec_paginate_info;

verus! {

broadcast use vstd::string::group_string_axioms;

/// The build's invocation surface: the configuration file's name, overrides
/// for each special directory, an optional subpath restriction, and the
/// naive-skip flag.
#[derive(Debug)]
pub struct SiteConfigs {
    /// The configuration file's name.
    pub config: String,
    /// An override for the output directory's name.
    pub gen: Option<String>,
    /// An override for the converters directory's name.
    pub converters: Option<String>,
    /// An override for the includes directory's name.
    pub includes: Option<String>,
    /// An override for the templates directory's name.
    pub templates: Option<String>,
    /// An override for the theme directory's name.
    pub theme: Option<String>,
    /// Rebuild only sources under these paths, when present.
    pub subpath: Option<Vec<String>>,
    /// Consult only an artifact's own staleness, not its siblings'.
    pub naive_skip: bool,
}

/// A batch's site-relative URL, from its destination path: the site prefix,
/// the destination directory and the file's stem joined by slashes, and the
/// file's own extension.
pub open spec fn spec_batch_url(prefix: Seq<char>, dest: Seq<Seq<char>>) -> Seq<char> {
    prefix + seq!['/'] + join_view(dest.drop_last().push(spec_stem_of(dest.last())), '/')
        + seq!['.'] + spec_ext_of(dest.last())
}

/// A batch's site-relative URL, from its destination path.
pub fn batch_url_from_dest(site_url: &Option<String>, dest: &Vec<String>) -> (r: String)
    requires
        dest@.len() >= 1,
    ensures
        r@ == spec_batch_url(
            match site_url {
                Some(s) => s@,
                None => Seq::empty(),
            },
            dest.deep_view(),
        ),
{
    proof {
        reveal_strlit("/");
        reveal_strlit(".");
    }
    let last = dest.len() - 1;
    let (stem, ext) = crate::paginate::split_stem_ext(dest[last].as_str());
    let mut segs: Vec<String> = Vec::new();
    let mut j: usize = 0;
    while j < last
        invariant
            j <= last,
            last == dest@.len() - 1,
            segs@ =~= dest@.take(j as int),
        decreases last - j,
    {
        segs.push(dest[j].clone());
        proof {
            assert(segs@ =~= dest@.take(j + 1));
        }
        j += 1;
    }
    segs.push(stem);
    proof {
        assert(dest.deep_view().last() == dest@[last as int]@);
        assert forall|k: int| 0 <= k < segs@.len() implies segs.deep_view()[k]
            == dest.deep_view().drop_last().push(spec_stem_of(dest.deep_view().last()))[k] by {
            if k < last {
                assert(segs@[k] == dest@[k]);
            }
        }
        assert(segs.deep_view() =~= dest.deep_view().drop_last().push(
            spec_stem_of(dest.deep_view().last()),
        ));
    }
    let joined = join_segments(&segs);
    let mut out: String = match site_url {
        Some(s) => s.clone(),
        None => String::new(),
    };
    out.append("/");
    out.append(joined.as_str());
    out.append(".");
    out.append(ext.as_str());
    proof {
        assert(out@ =~= spec_batch_url(
            match site_url {
                Some(s) => s@,
                None => Seq::empty(),
            },
            dest.deep_view(),
        ));
    }
    out
}

/// The id of the page at `j`, when `j` lies in the arena.
pub open spec fn spec_sibling_id(pages: Seq<Page>, j: Option<usize>) -> Option<Seq<char>> {
    match j {
        Some(j) => if (j as int) < pages.len() {
            Some(pages[j as int].page_id@)
        } else {
            None
        },
        None => None,
    }
}

/// Whether `cfg` is the configuration object of the page at `i`: the
/// page's front matter with `path` bound to the source path and `url`,
/// `date`, `page_id` and the resolved sibling ids filled in where the front
/// matter does not bind them; every other key reads as the front matter.
pub open spec fn spec_page_config_ok(
    cfg: Seq<(String, FmValue)>,
    pages: Seq<Page>,
    i: int,
) -> bool {
    let pg = pages[i];
    let fm = pg.front_matter@;
    &&& assoc_lookup(cfg, "path"@) == Some(
        FmView::Text(join_view(pg.source_path.deep_view(), '/')),
    )
    &&& assoc_lookup(cfg, "page_id"@) == (if assoc_has(fm, "page_id"@) {
        assoc_lookup(fm, "page_id"@)
    } else {
        Some(FmView::Text(pg.page_id@))
    })
    &&& assoc_lookup(cfg, "url"@) == (if assoc_has(fm, "url"@) {
        assoc_lookup(fm, "url"@)
    } else {
        Some(FmView::Text(pg.url@))
    })
    &&& assoc_lookup(cfg, "date"@) == (if assoc_has(fm, "date"@) {
        assoc_lookup(fm, "date"@)
    } else {
        Some(FmView::Text(pg.date_repr@))
    })
    &&& assoc_lookup(cfg, "next"@) == (if assoc_has(fm, "next"@) {
        assoc_lookup(fm, "next"@)
    } else {
        match spec_sibling_id(pages, pg.next) {
            Some(id) => Some(FmView::Text(id)),
            None => None,
        }
    })
    &&& assoc_lookup(cfg, "last"@) == (if assoc_has(fm, "last"@) {
        assoc_lookup(fm, "last"@)
    } else {
        match spec_sibling_id(pages, pg.last) {
            Some(id) => Some(FmView::Text(id)),
            None => None,
        }
    })
    &&& forall|k: Seq<char>|
        k != "path"@ && k != "url"@ && k != "date"@ && k != "page_id"@ && k != "next"@ && k
            != "last"@ ==> assoc_lookup(cfg, k) == assoc_lookup(fm, k)
}

/// The configuration object of the page at `i`, its sibling links resolved
/// to page ids.
pub fn page_config_of(pages: &Vec<Page>, i: usize) -> (r: Vec<(String, FmValue)>)
    requires
        (i as int) < pages@.len(),
    ensures
        spec_page_config_ok(r@, pages@, i as int),
{
    let next_id: Option<String> = match pages[i].next() {
        Some(j) => {
            if j < pages.len() {
                Some(pages[j].page_id.clone())
            } else {
                None
            }
        },
        None => None,
    };
    let last_id: Option<String> = match pages[i].last() {
        Some(j) => {
            if j < pages.len() {
                Some(pages[j].page_id.clone())
            } else {
                None
            }
        },
        None => None,
    };
    pages[i].get_page_config(next_id.as_ref(), last_id.as_ref())
}

/// The page indices sorted by date, newest first: a permutation of the
/// arena's indices — each page appears exactly once.
pub fn sorted_page_indices(pages: &Vec<Page>) -> (r: Vec<usize>)
    ensures
        r@.len() == pages@.len(),
        forall|i: int| 0 <= i < r@.len() ==> (#[trigger] r@[i] as int) < pages@.len(),
        forall|i: int, j: int| 0 <= i < j < r@.len() ==> r@[i] != r@[j],
        forall|i: int, j: int|
            0 <= i < j < r@.len() ==> pages@[r@[i] as int].date >= pages@[r@[j] as int].date,
{
    broadcast use vstd::seq_lib::group_to_multiset_ensures, vstd::multiset::group_multiset_axioms;

    let n = pages.len();
    let mut idx: Vec<usize> = Vec::new();
    let mut i: usize = 0;
    while i < n
        invariant
            i <= n,
            n == pages@.len(),
            idx@.len() == i,
            forall|k: int| 0 <= k < i ==> idx@[k] == k,
        decreases n - i,
    {
        idx.push(i);
        i += 1;
    }
    let sorted = sort_pages_by_date(pages, idx);
    proof {
        assert(idx@.no_duplicates());
        idx@.lemma_multiset_has_no_duplicates();
        sorted@.lemma_multiset_has_no_duplicates_conv();
    }
    sorted
}

/// The `all_pages` object: every page's id, dates descending.
pub fn gen_all_pages_object(pages: &Vec<Page>, sorted: &Vec<usize>) -> (r: FmValue)
    requires
        forall|i: int| 0 <= i < sorted@.len() ==> (#[trigger] sorted@[i] as int) < pages@.len(),
    ensures
        r matches FmValue::List(xs) && xs@.len() == sorted@.len(),
        ({
            let xs = r->List_0;
            forall|i: int|
                0 <= i < sorted@.len() ==> #[trigger] xs@[i]@ == FmView::Text(
                    pages@[sorted@[i] as int].page_id@,
                )
        }),
{
    let n = sorted.len();
    let mut out: Vec<FmValue> = Vec::new();
    let mut i: usize = 0;
    while i < n
        invariant
            i <= n,
            n == sorted@.len(),
            forall|k: int| 0 <= k < n ==> (#[trigger] sorted@[k] as int) < pages@.len(),
            out@.len() == i,
            forall|k: int|
                0 <= k < i ==> #[trigger] out@[k]@ == FmView::Text(
                    pages@[sorted@[k] as int].page_id@,
                ),
        decreases n - i,
    {
        out.push(FmValue::Text(pages[sorted[i]].page_id.clone()));
        i += 1;
    }
    FmValue::List(out)
}

/// The `id_to_page` object: each registered id bound to its page's
/// configuration object.  An id whose page index lies outside the arena is
/// left out; a table from a clean build has none.
pub fn gen_id_to_page_object(pages: &Vec<Page>, id_to_page: &Vec<(String, usize)>) -> (r: Vec<
    (String, FmValue),
>)
    ensures
        forall|j: int| 0 <= j < r@.len() ==> (#[trigger] r@[j]).1 is Dict,
        (forall|j: int|
            0 <= j < id_to_page@.len() ==> (#[trigger] id_to_page@[j].1 as int) < pages@.len())
            ==> r@.len() == id_to_page@.len() && (forall|j: int|
            0 <= j < r@.len() ==> (#[trigger] r@[j]).0@ == id_to_page@[j].0@
                && spec_page_config_ok(r@[j].1->Dict_0@, pages@, id_to_page@[j].1 as int)),
{
    let n = id_to_page.len();
    let mut out: Vec<(String, FmValue)> = Vec::new();
    let mut j: usize = 0;
    let mut all_in_range = true;
    while j < n
        invariant
            j <= n,
            n == id_to_page@.len(),
            forall|k: int| 0 <= k < out@.len() ==> (#[trigger] out@[k]).1 is Dict,
            all_in_range ==> out@.len() == j && (forall|k: int|
                0 <= k < j ==> (#[trigger] out@[k]).0@ == id_to_page@[k].0@
                    && spec_page_config_ok(out@[k].1->Dict_0@, pages@, id_to_page@[k].1 as int)),
            all_in_range ==> (forall|k: int|
                0 <= k < j ==> (#[trigger] id_to_page@[k].1 as int) < pages@.len()),
            !all_in_range ==> !(forall|k: int|
                0 <= k < n ==> (#[trigger] id_to_page@[k].1 as int) < pages@.len()),
        decreases n - j,
    {
        if id_to_page[j].1 < pages.len() {
            let config = page_config_of(pages, id_to_page[j].1);
            out.push((id_to_page[j].0.clone(), FmValue::Dict(config)));
            proof {
                if all_in_range {
                    assert(out@[j as int].0@ == id_to_page@[j as int].0@);
                    assert(spec_page_config_ok(
                        out@[j as int].1->Dict_0@,
                        pages@,
                        id_to_page@[j as int].1 as int,
                    ));
                }
                assert(out@[out@.len() - 1].1 is Dict);
            }
        } else {
            all_in_range = false;
        }
        j += 1;
    }
    out
}

/// The per-batch `paginator` object: the shared items and batch count, the
/// batch URLs, this batch's items and number, and the neighbouring batch
/// numbers exactly where a previous or next batch exists.
pub fn batch_paginator_object(
    base: &Vec<(String, FmValue)>,
    batch_urls: &Vec<String>,
    current_batch: &Vec<FmValue>,
    current_batch_num: usize,
    total_batches: usize,
) -> (r: Vec<(String, FmValue)>)
    requires
        current_batch_num <= i64::MAX,
        total_batches <= i64::MAX,
    ensures
        assoc_lookup(r@, "batch_urls"@) matches Some(v) && v matches FmView::List(us)
            && us.len() == batch_urls@.len(),
        assoc_lookup(r@, "current_batch"@) == Some(
            FmView::List(current_batch.deep_view()),
        ),
        assoc_lookup(r@, "current_batch_num"@) == Some(
            FmView::Int(current_batch_num as int),
        ),
        assoc_lookup(r@, "last_batch_num"@) == (if current_batch_num > 0 {
            Some(FmView::Int(current_batch_num - 1))
        } else {
            None
        }),
        assoc_lookup(r@, "next_batch_num"@) == (if current_batch_num + 1 < total_batches {
            Some(FmView::Int(current_batch_num + 1))
        } else {
            None
        }),
        forall|k: Seq<char>|
            k != "batch_urls"@ && k != "current_batch"@ && k != "current_batch_num"@ && k
                != "last_batch_num"@ && k != "next_batch_num"@ ==> assoc_lookup(r@, k)
                == assoc_lookup(base@, k),
{
    proof {
        lemma_paginator_keys_distinct();
    }
    let mut out = crate::value::dict_dup(base);
    let n = batch_urls.len();
    let mut urls: Vec<FmValue> = Vec::new();
    let mut i: usize = 0;
    while i < n
        invariant
            i <= n,
            n == batch_urls@.len(),
            urls@.len() == i,
        decreases n - i,
    {
        urls.push(FmValue::Text(batch_urls[i].clone()));
        i += 1;
    }
    proof {
        crate::value::lemma_fm_list_view_len(urls@);
    }
    crate::value::assoc_set(&mut out, "batch_urls".to_owned(), FmValue::List(urls));
    let items = crate::value::list_dup(current_batch);
    proof {
        crate::value::lemma_list_deep_view(items);
        crate::value::lemma_fm_list_view_len(items@);
        assert forall|k: int| 0 <= k < items@.len() implies crate::value::fm_list_view(items@)[k]
            == items.deep_view()[k] by {
            crate::value::lemma_fm_list_view_index(items@, k);
        }
        assert(crate::value::fm_list_view(items@) =~= current_batch.deep_view());
    }
    crate::value::assoc_set(&mut out, "current_batch".to_owned(), FmValue::List(items));
    crate::value::assoc_set(
        &mut out,
        "current_batch_num".to_owned(),
        FmValue::Int(current_batch_num as i64),
    );
    if current_batch_num > 0 {
        crate::value::assoc_set(
            &mut out,
            "last_batch_num".to_owned(),
            FmValue::Int((current_batch_num - 1) as i64),
        );
    } else {
        crate::value::assoc_remove(&mut out, "last_batch_num");
    }
    if total_batches > 0 && current_batch_num < total_batches - 1 {
        crate::value::assoc_set(
            &mut out,
            "next_batch_num".to_owned(),
            FmValue::Int((current_batch_num + 1) as i64),
        );
    } else {
        crate::value::assoc_remove(&mut out, "next_batch_num");
    }
    out
}

/// The paginator object's keys are pairwise distinct.
proof fn lemma_paginator_keys_distinct()
    ensures
        "batch_urls"@ != "current_batch"@,
        "batch_urls"@ != "current_batch_num"@,
        "batch_urls"@ != "last_batch_num"@,
        "batch_urls"@ != "next_batch_num"@,
        "current_batch"@ != "current_batch_num"@,
        "current_batch"@ != "last_batch_num"@,
        "current_batch"@ != "next_batch_num"@,
        "current_batch_num"@ != "last_batch_num"@,
        "current_batch_num"@ != "next_batch_num"@,
        "last_batch_num"@ != "next_batch_num"@,
{
    reveal_strlit("batch_urls");
    reveal_strlit("current_batch");
    reveal_strlit("current_batch_num");
    reveal_strlit("last_batch_num");
    reveal_strlit("next_batch_num");
    assert("batch_urls"@.len() == 10);
    assert("current_batch"@.len() == 13);
    assert("current_batch_num"@.len() == 17);
    assert("last_batch_num"@.len() == 14);
    assert("next_batch_num"@.len() == 14);
    assert("last_batch_num"@[0] == 'l');
    assert("next_batch_num"@[0] == 'n');
}


/// The string sequence as a sequence of text value shapes.
pub open spec fn texts_to_views(ids: Seq<Seq<char>>) -> Seq<FmView> {
    ids.map_values(|s: Seq<char>| FmView::Text(s))
}

/// A sequence value holding the given strings.
pub fn texts_value(ids: &Vec<String>) -> (r: FmValue)
    ensures
        r@ == FmView::List(texts_to_views(ids.deep_view())),
{
    let n = ids.len();
    let mut out: Vec<FmValue> = Vec::new();
    let mut i: usize = 0;
    while i < n
        invariant
            i <= n,
            n == ids@.len(),
            out@.len() == i,
            forall|k: int| 0 <= k < i ==> (#[trigger] out@[k])@ == FmView::Text(ids@[k]@),
        decreases n - i,
    {
        out.push(FmValue::Text(ids[i].clone()));
        i += 1;
    }
    proof {
        crate::value::lemma_fm_list_view_len(out@);
        assert forall|k: int| 0 <= k < n implies crate::value::fm_list_view(out@)[k]
            == texts_to_views(ids.deep_view())[k] by {
            crate::value::lemma_fm_list_view_index(out@, k);
        }
        assert(crate::value::fm_list_view(out@) =~= texts_to_views(ids.deep_view()));
    }
    FmValue::List(out)
}

/// The `taxo` object: each taxonomy bound to its kind table — every kind
/// bound to the ids of its pages, plus `_keys` listing the kinds — plus
/// `_keys` listing the taxonomies.
pub fn gen_taxo_object(taxo_index: &Vec<(String, crate::taxonomy::KindTable)>) -> (r: Vec<
    (String, FmValue),
>)
    ensures
        r@.len() == taxo_index@.len() + 1,
        forall|t: int|
            0 <= t < taxo_index@.len() ==> (#[trigger] r@[t]).0@ == taxo_index@[t].0@
                && (r@[t].1 matches FmValue::Dict(d) && d@.len() == taxo_index@[t].1@.len() + 1
                && (forall|k: int|
                0 <= k < taxo_index@[t].1@.len() ==> (#[trigger] d@[k]).0@
                    == taxo_index@[t].1@[k].0@ && d@[k].1@ == FmView::List(
                    texts_to_views(taxo_index@[t].1@[k].1.deep_view()),
                )) && d@[taxo_index@[t].1@.len() as int].0@ == "_keys"@
                && d@[taxo_index@[t].1@.len() as int].1@ == FmView::List(
                    texts_to_views(
                        Seq::new(taxo_index@[t].1@.len(), |k2: int| taxo_index@[t].1@[k2].0@),
                    ),
                )),
        r@[taxo_index@.len() as int].0@ == "_keys"@,
        r@[taxo_index@.len() as int].1@ == FmView::List(
            texts_to_views(Seq::new(taxo_index@.len(), |t2: int| taxo_index@[t2].0@)),
        ),
{
    let tn = taxo_index.len();
    let mut out: Vec<(String, FmValue)> = Vec::new();
    let mut t: usize = 0;
    while t < tn
        invariant
            t <= tn,
            tn == taxo_index@.len(),
            out@.len() == t,
            forall|m: int|
                0 <= m < t ==> (#[trigger] out@[m]).0@ == taxo_index@[m].0@ && (out@[m].1
                    matches FmValue::Dict(d) && d@.len() == taxo_index@[m].1@.len() + 1 && (forall|
                    k: int,
                |
                    0 <= k < taxo_index@[m].1@.len() ==> (#[trigger] d@[k]).0@
                        == taxo_index@[m].1@[k].0@ && d@[k].1@ == FmView::List(
                        texts_to_views(taxo_index@[m].1@[k].1.deep_view()),
                    )) && d@[taxo_index@[m].1@.len() as int].0@ == "_keys"@
                    && d@[taxo_index@[m].1@.len() as int].1@ == FmView::List(
                    texts_to_views(
                        Seq::new(taxo_index@[m].1@.len(), |k2: int| taxo_index@[m].1@[k2].0@),
                    ),
                )),
        decreases tn - t,
    {
        let kinds = &taxo_index[t].1;
        let kn = kinds.len();
        let mut kind_map: Vec<(String, FmValue)> = Vec::new();
        let mut kind_names: Vec<String> = Vec::new();
        let mut k: usize = 0;
        while k < kn
            invariant
                k <= kn,
                kn == kinds@.len(),
                kind_map@.len() == k,
                kind_names@.len() == k,
                forall|m: int|
                    0 <= m < k ==> (#[trigger] kind_map@[m]).0@ == kinds@[m].0@ && kind_map@[m].1@
                        == FmView::List(texts_to_views(kinds@[m].1.deep_view())),
                forall|m: int| 0 <= m < k ==> (#[trigger] kind_names@[m])@ == kinds@[m].0@,
            decreases kn - k,
        {
            let ids_value = texts_value(&kinds[k].1);
            kind_map.push((kinds[k].0.clone(), ids_value));
            kind_names.push(kinds[k].0.clone());
            proof {
                assert(kind_map@[k as int].0@ == kinds@[k as int].0@);
                assert(kind_names@[k as int]@ == kinds@[k as int].0@);
            }
            k += 1;
        }
        let keys_value = texts_value(&kind_names);
        proof {
            assert(kind_names.deep_view() =~= Seq::new(
                kinds@.len(),
                |k2: int| kinds@[k2].0@,
            ));
        }
        kind_map.push(("_keys".to_owned(), keys_value));
        out.push((taxo_index[t].0.clone(), FmValue::Dict(kind_map)));
        proof {
            assert(out@[t as int].0@ == taxo_index@[t as int].0@);
        }
        t += 1;
    }
    let mut taxo_names: Vec<String> = Vec::new();
    let mut t2: usize = 0;
    while t2 < tn
        invariant
            t2 <= tn,
            tn == taxo_index@.len(),
            taxo_names@.len() == t2,
            forall|m: int| 0 <= m < t2 ==> (#[trigger] taxo_names@[m])@ == taxo_index@[m].0@,
        decreases tn - t2,
    {
        taxo_names.push(taxo_index[t2].0.clone());
        proof {
            assert(taxo_names@[t2 as int]@ == taxo_index@[t2 as int].0@);
        }
        t2 += 1;
    }
    let keys_value = texts_value(&taxo_names);
    proof {
        assert(taxo_names.deep_view() =~= Seq::new(
            taxo_index@.len(),
            |t3: int| taxo_index@[t3].0@,
        ));
    }
    out.push(("_keys".to_owned(), keys_value));
    out
}

/// One step of the emission phase, named by arena index; the caller
/// resolves indices to paths through the tree and performs the step.
#[derive(Debug)]
pub enum EmitAction {
    /// Ensure the directory node's destination exists.
    MakeDir {
        /// The directory, as a node-arena index.
        node: usize,
    },
    /// Copy the static node's source to its destination.
    CopyStatic {
        /// The static file, as a node-arena index.
        node: usize,
    },
    /// Leave the static node's output as it stands.
    SkipStatic {
        /// The static file, as a node-arena index.
        node: usize,
    },
    /// Convert, render and write the page.
    GenPage {
        /// The page, as a page-arena index.
        page: usize,
    },
    /// Leave the page's output as it stands.
    SkipPage {
        /// The page, as a page-arena index.
        page: usize,
    },
}

/// Whether a page is regenerated: a paginated page always is (its batch
/// count may have changed), unless naive skipping is asked for; any other
/// page follows the staleness oracle.
pub open spec fn spec_gen_page_decision(
    st: SkipSettings,
    entries: Seq<(Vec<String>, crate::stale::ExistingTreeNode)>,
    pages: Seq<Page>,
    i: int,
) -> bool {
    ((spec_paginate_info(pages[i].front_matter@) matches Some(info) && info.1 <= usize::MAX)
        && !st.naive_skip) || spec_regen_page(st, entries, pages, i)
}

/// Whether one action is justified by the oracle.
pub open spec fn spec_action_sound(
    a: EmitAction,
    nodes: Seq<SiteTreeNode>,
    pages: Seq<Page>,
    st: SkipSettings,
    entries: Seq<(Vec<String>, crate::stale::ExistingTreeNode)>,
) -> bool {
    match a {
        EmitAction::MakeDir { node } => (node as int) < nodes.len() && nodes[node as int]
            is NormalDir,
        EmitAction::CopyStatic { node } => (node as int) < nodes.len() && (match nodes[node as int] {
            SiteTreeNode::StaticFile { dest_path, timestamp, source, .. } => spec_copy_static(
                st,
                entries,
                source.deep_view(),
                dest_path.deep_view(),
                timestamp as int,
            ),
            _ => false,
        }),
        EmitAction::SkipStatic { node } => (node as int) < nodes.len() && (match nodes[node as int] {
            SiteTreeNode::StaticFile { dest_path, timestamp, source, .. } => !spec_copy_static(
                st,
                entries,
                source.deep_view(),
                dest_path.deep_view(),
                timestamp as int,
            ),
            _ => false,
        }),
        EmitAction::GenPage { page } => (page as int) < pages.len() && spec_gen_page_decision(
            st,
            entries,
            pages,
            page as int,
        ),
        EmitAction::SkipPage { page } => (page as int) < pages.len() && !spec_gen_page_decision(
            st,
            entries,
            pages,
            page as int,
        ),
    }
}


/// The actions one subtree contributes, in walk order: a directory yields
/// its own make-directory step followed by each child's actions in turn; a
/// static file yields exactly one copy or skip, a page exactly one
/// generate or skip, each decided by the oracle.
pub open spec fn spec_plan(
    nodes: Seq<SiteTreeNode>,
    pages: Seq<Page>,
    st: SkipSettings,
    entries: Seq<(Vec<String>, crate::stale::ExistingTreeNode)>,
    d: int,
) -> Seq<EmitAction>
    decreases d, 1int, 0int,
{
    if !(0 <= d < nodes.len()) {
        Seq::empty()
    } else {
        match nodes[d] {
            SiteTreeNode::NormalDir { .. } => seq![EmitAction::MakeDir { node: d as usize }]
                + spec_plan_kids(nodes, pages, st, entries, d, 0),
            SiteTreeNode::PageFile { page } => if (page as int) < pages.len() {
                if spec_gen_page_decision(st, entries, pages, page as int) {
                    seq![EmitAction::GenPage { page }]
                } else {
                    seq![EmitAction::SkipPage { page }]
                }
            } else {
                Seq::empty()
            },
            SiteTreeNode::StaticFile { dest_path, timestamp, source, .. } => if spec_copy_static(
                st,
                entries,
                source.deep_view(),
                dest_path.deep_view(),
                timestamp as int,
            ) {
                seq![EmitAction::CopyStatic { node: d as usize }]
            } else {
                seq![EmitAction::SkipStatic { node: d as usize }]
            },
        }
    }
}

/// The actions a directory's children from position `k` on contribute.
pub open spec fn spec_plan_kids(
    nodes: Seq<SiteTreeNode>,
    pages: Seq<Page>,
    st: SkipSettings,
    entries: Seq<(Vec<String>, crate::stale::ExistingTreeNode)>,
    d: int,
    k: int,
) -> Seq<EmitAction>
    decreases d, 0int, (if 0 <= d < nodes.len() { dir_children(nodes[d]).len() - k } else { 0 }),
{
    if !(0 <= d < nodes.len()) || !(0 <= k < dir_children(nodes[d]).len()) {
        Seq::empty()
    } else {
        let c = dir_children(nodes[d])[k] as int;
        (if 0 <= c < d {
            spec_plan(nodes, pages, st, entries, c)
        } else {
            Seq::empty()
        }) + spec_plan_kids(nodes, pages, st, entries, d, k + 1)
    }
}

/// Walks one subtree, appending its actions.
fn plan_node(
    nodes: &Vec<SiteTreeNode>,
    pages: &Vec<Page>,
    st: &SkipSettings,
    snapshot: &OutputSnapshot,
    d: usize,
    out: &mut Vec<EmitAction>,
)
    requires
        tree_wf(nodes@, pages@),
        (d as int) < nodes@.len(),
        forall|k: int|
            0 <= k < old(out)@.len() ==> spec_action_sound(
                #[trigger] old(out)@[k],
                nodes@,
                pages@,
                *st,
                snapshot.entries@,
            ),
    ensures
        final(out)@ == old(out)@ + spec_plan(nodes@, pages@, *st, snapshot.entries@, d as int),
        forall|k: int|
            0 <= k < final(out)@.len() ==> spec_action_sound(
                #[trigger] final(out)@[k],
                nodes@,
                pages@,
                *st,
                snapshot.entries@,
            ),
    decreases d,
{
    match &nodes[d] {
        SiteTreeNode::NormalDir { children, .. } => {
            out.push(EmitAction::MakeDir { node: d });
            let cn = children.len();
            let mut k: usize = 0;
            proof {
                assert(out@ =~= old(out)@ + seq![EmitAction::MakeDir { node: d }]);
            }
            while k < cn
                invariant
                    k <= cn,
                    tree_wf(nodes@, pages@),
                    (d as int) < nodes@.len(),
                    nodes@[d as int] is NormalDir,
                    children@ == dir_children(nodes@[d as int]),
                    cn == dir_children(nodes@[d as int]).len(),
                    out@ + spec_plan_kids(nodes@, pages@, *st, snapshot.entries@, d as int, k as int)
                        == old(out)@ + spec_plan(nodes@, pages@, *st, snapshot.entries@, d as int),
                    forall|m: int|
                        0 <= m < cn ==> 0 <= (#[trigger] dir_children(nodes@[d as int])[m] as int)
                            < d,
                    forall|m: int|
                        0 <= m < out@.len() ==> spec_action_sound(
                            #[trigger] out@[m],
                            nodes@,
                            pages@,
                            *st,
                            snapshot.entries@,
                        ),
                decreases cn - k,
            {
                proof {
                    assert(dir_children(nodes@[d as int])[k as int] == children@[k as int]);
                }
                let c = children[k];
                plan_node(nodes, pages, st, snapshot, c, out);
                proof {
                    assert(out@ + spec_plan_kids(
                        nodes@,
                        pages@,
                        *st,
                        snapshot.entries@,
                        d as int,
                        k + 1,
                    ) =~= old(out)@ + spec_plan(nodes@, pages@, *st, snapshot.entries@, d as int));
                }
                k += 1;
            }
            proof {
                assert(spec_plan_kids(nodes@, pages@, *st, snapshot.entries@, d as int, cn as int)
                    =~= Seq::<EmitAction>::empty());
                assert(out@ =~= old(out)@ + spec_plan(
                    nodes@,
                    pages@,
                    *st,
                    snapshot.entries@,
                    d as int,
                ));
            }
        },
        SiteTreeNode::PageFile { page } => {
            let p = *page;
            if p < pages.len() {
                let paginated = match pages[p].paginate_info() {
                    Some(_) => true,
                    None => false,
                };
                let mut do_gen = crate::stale::decide_not_skip_page(st, snapshot, pages, p);
                if paginated && !st.naive_skip {
                    do_gen = true;
                }
                if do_gen {
                    out.push(EmitAction::GenPage { page: p });
                } else {
                    out.push(EmitAction::SkipPage { page: p });
                }
            }
            proof {
                assert(final(out)@ =~= old(out)@ + spec_plan(
                    nodes@,
                    pages@,
                    *st,
                    snapshot.entries@,
                    d as int,
                ));
            }
        },
        SiteTreeNode::StaticFile { dest_path, timestamp, source, .. } => {
            let do_copy = crate::stale::decide_not_skip_static(
                st,
                snapshot,
                source,
                dest_path,
                *timestamp,
            );
            if do_copy {
                out.push(EmitAction::CopyStatic { node: d });
            } else {
                out.push(EmitAction::SkipStatic { node: d });
            }
            proof {
                assert(final(out)@ =~= old(out)@ + spec_plan(
                    nodes@,
                    pages@,
                    *st,
                    snapshot.entries@,
                    d as int,
                ));
            }
        },
    }
}

/// Plans the emission phase: one walk of the tree, deciding every artifact
/// against the output snapshot.  The plan is exactly the walk's actions —
/// one make-directory step per directory, one copy-or-skip per static file,
/// one generate-or-skip per page, in walk order — and every action is
/// justified by the oracle.
pub fn plan_emission(tree: &SiteTree, st: &SkipSettings, snapshot: &OutputSnapshot) -> (r: Vec<
    EmitAction,
>)
    requires
        tree.wf(),
    ensures
        r@ == spec_plan(tree.nodes@, tree.pages@, *st, snapshot.entries@, tree.root as int),
        forall|k: int|
            0 <= k < r@.len() ==> spec_action_sound(
                #[trigger] r@[k],
                tree.nodes@,
                tree.pages@,
                *st,
                snapshot.entries@,
            ),
{
    let mut out: Vec<EmitAction> = Vec::new();
    plan_node(&tree.nodes, &tree.pages, st, snapshot, tree.root, &mut out);
    proof {
        assert(out@ =~= spec_plan(
            tree.nodes@,
            tree.pages@,
            *st,
            snapshot.entries@,
            tree.root as int,
        ));
    }
    out
}

/// Idempotence of the plan: with nothing forcing regeneration — no
/// regenerate-all flag, no subpath restriction, no paginated page (or naive
/// skipping) — and every output at least as new as its source, the plan
/// holds no write action at all.
pub proof fn lemma_fresh_plan_writes_nothing(
    r: Seq<EmitAction>,
    nodes: Seq<SiteTreeNode>,
    pages: Seq<Page>,
    st: SkipSettings,
    entries: Seq<(Vec<String>, crate::stale::ExistingTreeNode)>,
)
    requires
        forall|k: int|
            0 <= k < r.len() ==> spec_action_sound(#[trigger] r[k], nodes, pages, st, entries),
        !st.regen_all,
        st.subpath is None,
        forall|i: int|
            0 <= i < pages.len() ==> !crate::stale::spec_page_self_stale(entries, pages, i),
        forall|i: int|
            0 <= i < pages.len() ==> spec_paginate_info(#[trigger] pages[i].front_matter@) is None
                || st.naive_skip,
        forall|n: int|
            0 <= n < nodes.len() ==> (match #[trigger] nodes[n] {
                SiteTreeNode::StaticFile { dest_path, timestamp, source, .. }
                    => !crate::stale::spec_is_src_newer(
                    entries,
                    dest_path.deep_view(),
                    timestamp as int,
                ),
                _ => true,
            }),
    ensures
        forall|k: int| 0 <= k < r.len() ==> !(r[k] is CopyStatic) && !(r[k] is GenPage),
{
    crate::stale::lemma_fresh_outputs_skip_all(st, entries, pages);
    assert forall|k: int| 0 <= k < r.len() implies !(r[k] is CopyStatic) && !(r[k]
        is GenPage) by {
        assert(spec_action_sound(r[k], nodes, pages, st, entries));
    }
}


/// The representative pages a directory's children contribute: each page
/// node its page, each child directory its index page — when those indices
/// lie in the arena — and nothing else.
pub open spec fn spec_dir_reps(
    nodes: Seq<SiteTreeNode>,
    pages: Seq<Page>,
    cs: Seq<usize>,
) -> Seq<usize>
    decreases cs.len(),
{
    if cs.len() == 0 {
        Seq::empty()
    } else {
        (if 0 <= (cs[0] as int) < nodes.len() {
            match nodes[cs[0] as int] {
                SiteTreeNode::PageFile { page } => if (page as int) < pages.len() {
                    seq![page]
                } else {
                    Seq::empty()
                },
                SiteTreeNode::NormalDir { index: Some(p), .. } => if (p as int) < pages.len() {
                    seq![p]
                } else {
                    Seq::empty()
                },
                _ => Seq::empty(),
            }
        } else {
            Seq::empty()
        }) + spec_dir_reps(nodes, pages, cs.skip(1))
    }
}

/// One more child contributes its representative page, or nothing.
proof fn lemma_dir_reps_snoc(nodes: Seq<SiteTreeNode>, pages: Seq<Page>, cs: Seq<usize>, c: usize)
    ensures
        spec_dir_reps(nodes, pages, cs.push(c)) == spec_dir_reps(nodes, pages, cs) + (if 0 <= (
        c as int) < nodes.len() {
            match nodes[c as int] {
                SiteTreeNode::PageFile { page } => if (page as int) < pages.len() {
                    seq![page]
                } else {
                    Seq::<usize>::empty()
                },
                SiteTreeNode::NormalDir { index: Some(p), .. } => if (p as int) < pages.len() {
                    seq![p]
                } else {
                    Seq::<usize>::empty()
                },
                _ => Seq::<usize>::empty(),
            }
        } else {
            Seq::<usize>::empty()
        }),
    decreases cs.len(),
{
    if cs.len() == 0 {
        assert(cs.push(c)[0] == c);
        assert(cs.push(c).skip(1) =~= Seq::<usize>::empty());
        assert(spec_dir_reps(nodes, pages, Seq::<usize>::empty()) == Seq::<usize>::empty());
        assert(spec_dir_reps(nodes, pages, cs.push(c)) =~= spec_dir_reps(nodes, pages, cs) + (
        if 0 <= (c as int) < nodes.len() {
            match nodes[c as int] {
                SiteTreeNode::PageFile { page } => if (page as int) < pages.len() {
                    seq![page]
                } else {
                    Seq::<usize>::empty()
                },
                SiteTreeNode::NormalDir { index: Some(p), .. } => if (p as int) < pages.len() {
                    seq![p]
                } else {
                    Seq::<usize>::empty()
                },
                _ => Seq::<usize>::empty(),
            }
        } else {
            Seq::<usize>::empty()
        }));
    } else {
        assert(cs.push(c).skip(1) =~= cs.skip(1).push(c));
        lemma_dir_reps_snoc(nodes, pages, cs.skip(1), c);
        assert(spec_dir_reps(nodes, pages, cs.push(c)) =~= spec_dir_reps(nodes, pages, cs) + (
        if 0 <= (c as int) < nodes.len() {
            match nodes[c as int] {
                SiteTreeNode::PageFile { page } => if (page as int) < pages.len() {
                    seq![page]
                } else {
                    Seq::<usize>::empty()
                },
                SiteTreeNode::NormalDir { index: Some(p), .. } => if (p as int) < pages.len() {
                    seq![p]
                } else {
                    Seq::<usize>::empty()
                },
                _ => Seq::<usize>::empty(),
            }
        } else {
            Seq::<usize>::empty()
        }));
    }
}

/// Whether `vs` lists, dates descending, exactly the ids of the pages in
/// `reps` (as a multiset).
pub open spec fn spec_list_matches(
    vs: Seq<FmView>,
    reps: Seq<usize>,
    pages: Seq<Page>,
) -> bool {
    exists|ord: Seq<usize>|
        {
            &&& (#[trigger] ord.to_multiset()) == reps.to_multiset()
            &&& ord.len() == vs.len()
            &&& (forall|m: int| 0 <= m < ord.len() ==> (#[trigger] ord[m] as int) < pages.len())
            &&& (forall|m1: int, m2: int|
                0 <= m1 < m2 < ord.len() ==> pages[ord[m1] as int].date >= pages[ord[m2]
                    as int].date)
            &&& (forall|m: int|
                0 <= m < vs.len() ==> #[trigger] vs[m] == FmView::Text(
                    pages[ord[m] as int].page_id@,
                ))
        }
}

/// Exhibits an order witnessing a date-descending id list.
proof fn lemma_list_matches(vs: Seq<FmView>, reps: Seq<usize>, pages: Seq<Page>, ord: Seq<usize>)
    requires
        ord.to_multiset() == reps.to_multiset(),
        ord.len() == vs.len(),
        forall|m: int| 0 <= m < ord.len() ==> (#[trigger] ord[m] as int) < pages.len(),
        forall|m1: int, m2: int|
            0 <= m1 < m2 < ord.len() ==> pages[ord[m1] as int].date >= pages[ord[m2] as int].date,
        forall|m: int|
            0 <= m < vs.len() ==> #[trigger] vs[m] == FmView::Text(pages[ord[m] as int].page_id@),
    ensures
        spec_list_matches(vs, reps, pages),
{
}

/// What one node contributes to its parent's tree object.
#[derive(Debug)]
pub enum TreeObjectInfo {
    /// A directory without an index page, by name.
    Dir(String),
    /// A directory with an index page, by name and index-page arena index.
    DirWithIndex(String, usize),
    /// A page, by page arena index.
    PageRef(usize),
    /// A static file: nothing to contribute.
    Nothing,
}

/// Builds the navigation object of one subtree.  A page contributes its id;
/// a directory contributes a mapping binding each child directory's name to
/// that child's object, and `_list` to the ids of the directory's pages —
/// direct pages, and each subdirectory's index page — dates descending.
pub fn gen_node_object(nodes: &Vec<SiteTreeNode>, pages: &Vec<Page>, d: usize) -> (r: (
    FmValue,
    TreeObjectInfo,
))
    requires
        tree_wf(nodes@, pages@),
        (d as int) < nodes@.len(),
        crate::tree::node_pages_ok(nodes@[d as int], pages@),
    ensures
        (match nodes@[d as int] {
            SiteTreeNode::PageFile { page } => r.0@ == FmView::Text(pages@[page as int].page_id@)
                && (r.1 matches TreeObjectInfo::PageRef(p) && p == page),
            SiteTreeNode::StaticFile { .. } => r.1 is Nothing,
            SiteTreeNode::NormalDir { index, .. } => {
                &&& r.0 is Dict
                &&& (assoc_lookup(r.0->Dict_0@, "_list"@) matches Some(v) && v
                    matches FmView::List(vs) && spec_list_matches(
                    vs,
                    spec_dir_reps(nodes@, pages@, dir_children(nodes@[d as int])),
                    pages@,
                ))
                &&& forall|k: int|
                    0 <= k < dir_children(nodes@[d as int]).len() && nodes@[(
                    #[trigger] dir_children(nodes@[d as int])[k]) as int] is NormalDir
                        && crate::tree::node_name(
                        nodes@[dir_children(nodes@[d as int])[k] as int],
                        pages@,
                    ) != "_list"@ ==> assoc_has(
                        r.0->Dict_0@,
                        crate::tree::node_name(
                            nodes@[dir_children(nodes@[d as int])[k] as int],
                            pages@,
                        ),
                    )
                &&& (match r.1 {
                    TreeObjectInfo::Dir(nm) => nm@ == crate::tree::node_name(
                        nodes@[d as int],
                        pages@,
                    ) && index is None,
                    TreeObjectInfo::DirWithIndex(nm, p) => nm@ == crate::tree::node_name(
                        nodes@[d as int],
                        pages@,
                    ) && index == Some(p),
                    _ => false,
                })
            },
        }),
    decreases d,
{
    match &nodes[d] {
        SiteTreeNode::PageFile { page } => {
            let id = pages[*page].get_page_id().clone();
            (FmValue::Text(id), TreeObjectInfo::PageRef(*page))
        },
        SiteTreeNode::StaticFile { .. } => (FmValue::Null, TreeObjectInfo::Nothing),
        SiteTreeNode::NormalDir { name, children, index, .. } => {
            let mut object: Vec<(String, FmValue)> = Vec::new();
            let mut reps: Vec<usize> = Vec::new();
            let cn = children.len();
            let mut k: usize = 0;
            proof {
                assert(children@.take(0) =~= Seq::<usize>::empty());
                assert(spec_dir_reps(nodes@, pages@, Seq::<usize>::empty())
                    == Seq::<usize>::empty());
                assert(reps@ =~= spec_dir_reps(nodes@, pages@, children@.take(0)));
            }
            while k < cn
                invariant
                    k <= cn,
                    tree_wf(nodes@, pages@),
                    (d as int) < nodes@.len(),
                    nodes@[d as int] is NormalDir,
                    children@ == dir_children(nodes@[d as int]),
                    cn == dir_children(nodes@[d as int]).len(),
                    forall|m: int|
                        0 <= m < reps@.len() ==> (#[trigger] reps@[m] as int) < pages@.len(),
                    reps@ == spec_dir_reps(nodes@, pages@, children@.take(k as int)),
                    forall|k2: int|
                        0 <= k2 < k && nodes@[(#[trigger] children@[k2]) as int] is NormalDir
                            && crate::tree::node_name(nodes@[children@[k2] as int], pages@)
                            != "_list"@ ==> assoc_has(
                            object@,
                            crate::tree::node_name(nodes@[children@[k2] as int], pages@),
                        ),
                decreases cn - k,
            {
                proof {
                    assert(dir_children(nodes@[d as int])[k as int] == children@[k as int]);
                    assert(children@.take(k + 1) =~= children@.take(k as int).push(
                        children@[k as int],
                    ));
                    lemma_dir_reps_snoc(nodes@, pages@, children@.take(k as int), children@[k as int]);
                }
                let c = children[k];
                let ghost object_before = object@;
                let (child_obj, child_info) = gen_node_object(nodes, pages, c);
                match child_info {
                    TreeObjectInfo::Dir(nm) => {
                        proof {
                            crate::value::lemma_assoc_lookup_push(object@, (nm, child_obj), nm@);
                            assert forall|k2: Seq<char>| assoc_has(object_before, k2)
                                implies assoc_has(#[trigger] object@.push((nm, child_obj)), k2) by {
                                crate::value::lemma_assoc_lookup_push(
                                    object_before,
                                    (nm, child_obj),
                                    k2,
                                );
                            }
                        }
                        object.push((nm, child_obj));
                    },
                    TreeObjectInfo::DirWithIndex(nm, p) => {
                        proof {
                            crate::value::lemma_assoc_lookup_push(object@, (nm, child_obj), nm@);
                            assert forall|k2: Seq<char>| assoc_has(object_before, k2)
                                implies assoc_has(#[trigger] object@.push((nm, child_obj)), k2) by {
                                crate::value::lemma_assoc_lookup_push(
                                    object_before,
                                    (nm, child_obj),
                                    k2,
                                );
                            }
                        }
                        object.push((nm, child_obj));
                        if p < pages.len() {
                            reps.push(p);
                        }
                    },
                    TreeObjectInfo::PageRef(p) => {
                        if p < pages.len() {
                            reps.push(p);
                        }
                    },
                    TreeObjectInfo::Nothing => {},
                }
                proof {
                    assert(reps@ =~= spec_dir_reps(nodes@, pages@, children@.take(k + 1)));
                }
                k += 1;
            }
            proof {
                assert(children@.take(cn as int) =~= children@);
            }
            let sorted = sort_pages_by_date(pages, reps);
            let mut ids: Vec<String> = Vec::new();
            let sn = sorted.len();
            let mut m: usize = 0;
            while m < sn
                invariant
                    m <= sn,
                    sn == sorted@.len(),
                    forall|q: int|
                        0 <= q < sn ==> (#[trigger] sorted@[q] as int) < pages@.len(),
                    ids@.len() == m,
                    forall|q: int|
                        0 <= q < m ==> (#[trigger] ids@[q])@ == pages@[sorted@[q] as int].page_id@,
                decreases sn - m,
            {
                ids.push(pages[sorted[m]].page_id.clone());
                m += 1;
            }
            let list_value = texts_value(&ids);
            let ghost vs = texts_to_views(ids.deep_view());
            proof {
                assert(vs.len() == sorted@.len());
                assert forall|q: int| 0 <= q < vs.len() implies #[trigger] vs[q] == FmView::Text(
                    pages@[sorted@[q] as int].page_id@,
                ) by {
                    assert(ids.deep_view()[q] == ids@[q]@);
                }
                lemma_list_matches(vs, reps@, pages@, sorted@);
            }
            let ghost object_pre_list = object@;
            crate::value::assoc_set(&mut object, "_list".to_owned(), list_value);
            proof {
                assert forall|k2: int|
                    0 <= k2 < cn && nodes@[(#[trigger] children@[k2]) as int] is NormalDir
                        && crate::tree::node_name(nodes@[children@[k2] as int], pages@)
                        != "_list"@ implies assoc_has(
                    object@,
                    crate::tree::node_name(nodes@[children@[k2] as int], pages@),
                ) by {
                    assert(assoc_has(object_pre_list, crate::tree::node_name(
                        nodes@[children@[k2] as int],
                        pages@,
                    )));
                }
            }
            let info = match index {
                Some(p) => TreeObjectInfo::DirWithIndex(name.clone(), *p),
                None => TreeObjectInfo::Dir(name.clone()),
            };
            (FmValue::Dict(object), info)
        },
    }
}

/// A directory's navigation object: a mapping that binds `_list` to a
/// sequence.
pub open spec fn spec_tree_object_ok(r: FmValue) -> bool {
    if r is Dict {
        match assoc_lookup(r->Dict_0@, "_list"@) {
            Some(v) => v is List,
            None => false,
        }
    } else {
        false
    }
}

/// Builds the whole tree's navigation object, from the root: a mapping
/// that binds `_list` to the date-descending ids of the root directory's
/// pages, and binds each child directory's name.
pub fn gen_site_tree_object(tree: &SiteTree) -> (r: FmValue)
    requires
        tree.wf(),
    ensures
        spec_tree_object_ok(r),
        (assoc_lookup(r->Dict_0@, "_list"@) matches Some(v) && v matches FmView::List(vs)
            && spec_list_matches(
            vs,
            spec_dir_reps(
                tree.nodes@,
                tree.pages@,
                dir_children(tree.nodes@[tree.root as int]),
            ),
            tree.pages@,
        )),
        forall|k: int|
            0 <= k < dir_children(tree.nodes@[tree.root as int]).len() && tree.nodes@[(
            #[trigger] dir_children(tree.nodes@[tree.root as int])[k]) as int] is NormalDir
                && crate::tree::node_name(
                tree.nodes@[dir_children(tree.nodes@[tree.root as int])[k] as int],
                tree.pages@,
            ) != "_list"@ ==> assoc_has(
                r->Dict_0@,
                crate::tree::node_name(
                    tree.nodes@[dir_children(tree.nodes@[tree.root as int])[k] as int],
                    tree.pages@,
                ),
            ),
{
    proof {
        assert(crate::tree::node_pages_ok(tree.nodes@[tree.root as int], tree.pages@));
    }
    let built = gen_node_object(&tree.nodes, &tree.pages, tree.root);
    built.0
}

/// The engine's composed state, ready to build: the merged configuration,
/// the layout table, the converter table, the extracted settings, the skip
/// settings and the output snapshot.
#[derive(Debug)]
pub struct Site {
    /// The merged configuration.
    pub config: Vec<(String, FmValue)>,
    /// The configured site-root URL prefix, if any.
    pub site_url: Option<String>,
    /// The layout table, by template name.
    pub templates: Vec<(String, crate::layout::Layout)>,
    /// The converter table, by converter name.
    pub converters: Vec<(String, crate::converters::ConverterKind)>,
    /// The settings read out of the configuration.
    pub important: crate::config::ImportantConfig,
    /// How staleness is decided on this run.
    pub skip: SkipSettings,
    /// The previous build's outputs.
    pub snapshot: OutputSnapshot,
}

/// Everything the build phase produces: the tree, the taxonomy index, the
/// context objects and the emission plan.
#[derive(Debug)]
pub struct BuiltSite {
    /// The built tree and page arena.
    pub tree: SiteTree,
    /// The taxonomy index.
    pub taxo_index: Vec<(String, crate::taxonomy::KindTable)>,
    /// The page indices, dates descending.
    pub sorted: Vec<usize>,
    /// The `sitetree` context object.
    pub sitetree_object: FmValue,
    /// The `taxo` context object's entries.
    pub taxo_object: Vec<(String, FmValue)>,
    /// The `all_pages` context object.
    pub all_pages_object: FmValue,
    /// The `id_to_page` context object's entries.
    pub id_to_page_object: Vec<(String, FmValue)>,
    /// The emission plan.
    pub plan: Vec<EmitAction>,
}

/// The URL prefix a site's configuration yields.
pub open spec fn spec_site_prefix(site: Site) -> Seq<char> {
    match site.site_url {
        Some(u) => u@,
        None => Seq::empty(),
    }
}

/// Whether the built tree is the built form of the given source entries:
/// the root's children are, in order, the non-hidden entries' built forms,
/// and the pages' ids are exactly the ids the entries yield.
pub open spec fn spec_tree_from_entries(
    tree: SiteTree,
    ents: Seq<crate::tree::SourceEntry>,
    table: Seq<(String, String)>,
    prefix: Seq<char>,
) -> bool {
    &&& dir_children(tree.nodes@[tree.root as int]).len() == crate::tree::visible_entries(
        ents,
    ).len()
    &&& forall|k: int|
        0 <= k < dir_children(tree.nodes@[tree.root as int]).len()
            ==> crate::tree::node_represents(
            tree.nodes@,
            tree.pages@,
            (#[trigger] dir_children(tree.nodes@[tree.root as int])[k]) as int,
            crate::tree::visible_entries(ents)[k],
            table,
            prefix,
            Seq::empty(),
            Seq::empty(),
        )
    &&& crate::tree::pages_ids(tree.pages@) == crate::tree::spec_source_ids(
        ents,
        table,
        prefix,
        Seq::empty(),
    )
}

impl Site {
    /// The build phase: builds the tree from the source entries (the
    /// theme's merged beneath them), aggregates taxonomies, sorts the pages
    /// by date, assembles the context objects and plans the emission.  The
    /// tree is well-formed — every destination extends its parent's — page
    /// ids are distinct, and every planned action is justified by the
    /// staleness oracle.
    pub fn generate_site(
        &self,
        now: i64,
        now_repr: String,
        content: Vec<crate::tree::SourceEntry>,
        theme_entries: Option<Vec<crate::tree::SourceEntry>>,
    ) -> (r: Result<BuiltSite, crate::BuildError>)
        ensures
            match r {
                Ok(b) => {
                    &&& b.tree.wf()
                    &&& crate::tree::pages_ids_distinct(b.tree.pages@)
                    &&& forall|k: int|
                        0 <= k < b.plan@.len() ==> spec_action_sound(
                            #[trigger] b.plan@[k],
                            b.tree.nodes@,
                            b.tree.pages@,
                            self.skip,
                            self.snapshot.entries@,
                        )
                    &&& b.taxo_index@.len() == self.important.taxonomies@.len()
                    &&& forall|t: int|
                        0 <= t < b.taxo_index@.len() ==> (#[trigger] b.taxo_index@[t]).0@
                            == self.important.taxonomies@[t]@ && b.taxo_index@[t].1.deep_view()
                            == crate::taxonomy::spec_kind_table(
                            b.tree.pages@,
                            self.important.taxonomies@[t]@,
                        )
                    &&& b.sorted@.len() == b.tree.pages@.len()
                    &&& forall|i: int, j: int|
                        0 <= i < j < b.sorted@.len() ==> b.tree.pages@[b.sorted@[i] as int].date
                            >= b.tree.pages@[b.sorted@[j] as int].date
                    &&& spec_tree_object_ok(b.sitetree_object)
                    &&& b.plan@ == spec_plan(
                        b.tree.nodes@,
                        b.tree.pages@,
                        self.skip,
                        self.snapshot.entries@,
                        b.tree.root as int,
                    )
                    &&& (match theme_entries {
                        None => spec_tree_from_entries(
                            b.tree,
                            content@,
                            self.important.convert_to_ext@,
                            spec_site_prefix(*self),
                        ),
                        Some(t) => exists|merged: Seq<crate::tree::SourceEntry>|
                            (#[trigger] crate::theme::spec_merged_shape(merged, content@, t@))
                                && spec_tree_from_entries(
                                b.tree,
                                merged,
                                self.important.convert_to_ext@,
                                spec_site_prefix(*self),
                            ),
                    })
                },
                Err(e) => e matches crate::BuildError::DuplicateId(d) && (match theme_entries {
                    None => crate::tree::spec_dup_id(
                        crate::tree::spec_source_ids(
                            content@,
                            self.important.convert_to_ext@,
                            spec_site_prefix(*self),
                            Seq::empty(),
                        ),
                        d@,
                    ),
                    Some(t) => exists|merged: Seq<crate::tree::SourceEntry>|
                        (#[trigger] crate::theme::spec_merged_shape(merged, content@, t@))
                            && crate::tree::spec_dup_id(
                            crate::tree::spec_source_ids(
                                merged,
                                self.important.convert_to_ext@,
                                spec_site_prefix(*self),
                                Seq::empty(),
                            ),
                            d@,
                        ),
                }),
            },
    {
        let ghost had_theme = theme_entries is Some;
        let ghost content0 = content@;
        let ghost theme0 = match theme_entries {
            Some(ref t) => t@,
            None => Seq::empty(),
        };
        let entries = match theme_entries {
            Some(t) => crate::theme::merge_source_trees(content, t),
            None => content,
        };
        let ghost merged0 = entries@;
        let settings = crate::tree::TreeSettings {
            convert_to_ext: table_dup(&self.important.convert_to_ext),
            site_url: match &self.site_url {
                Some(s) => Some(s.clone()),
                None => None,
            },
            now,
            now_repr,
        };
        proof {
            assert(settings.convert_to_ext@ == self.important.convert_to_ext@);
            assert(crate::tree::spec_url_prefix(settings) == spec_site_prefix(*self));
        }
        let tree = match crate::tree::build_site_tree(&settings, &entries) {
            Ok(t) => t,
            Err(e) => {
                proof {
                    if had_theme {
                        assert(crate::theme::spec_merged_shape(merged0, content0, theme0));
                    }
                }
                return Err(e);
            },
        };
        proof {
            if had_theme {
                assert(crate::theme::spec_merged_shape(merged0, content0, theme0));
            }
        }
        let taxo_index = crate::taxonomy::build_taxonomies(
            &self.important.taxonomies,
            &tree.pages,
        );
        let sorted = sorted_page_indices(&tree.pages);
        let sitetree_object = gen_site_tree_object(&tree);
        let taxo_object = gen_taxo_object(&taxo_index);
        let all_pages_object = gen_all_pages_object(&tree.pages, &sorted);
        let id_to_page_object = gen_id_to_page_object(&tree.pages, &tree.id_to_page);
        let plan = plan_emission(&tree, &self.skip, &self.snapshot);
        proof {
            assert(spec_tree_from_entries(
                tree,
                merged0,
                self.important.convert_to_ext@,
                spec_site_prefix(*self),
            ));
            assert(tree.wf());
            assert(crate::tree::pages_ids_distinct(tree.pages@));
            assert(taxo_index@.len() == self.important.taxonomies@.len());
            assert forall|t: int| 0 <= t < taxo_index@.len() implies (#[trigger] taxo_index@[t]).0@
                == self.important.taxonomies@[t]@ && taxo_index@[t].1.deep_view()
                == crate::taxonomy::spec_kind_table(
                tree.pages@,
                self.important.taxonomies@[t]@,
            ) by {
                assert(taxo_index@[t].0@ == self.important.taxonomies@[t]@);
            }
            assert(sorted@.len() == tree.pages@.len());
            assert(spec_tree_object_ok(sitetree_object));
        }
        Ok(BuiltSite {
            tree,
            taxo_index,
            sorted,
            sitetree_object,
            taxo_object,
            all_pages_object,
            id_to_page_object,
            plan,
        })
    }
}

/// A copy of a table of string pairs.
fn table_dup(table: &Vec<(String, String)>) -> (r: Vec<(String, String)>)
    ensures
        r@ == table@,
{
    let n = table.len();
    let mut out: Vec<(String, String)> = Vec::new();
    let mut i: usize = 0;
    while i < n
        invariant
            i <= n,
            n == table@.len(),
            out@ =~= table@.take(i as int),
        decreases n - i,
    {
        out.push((table[i].0.clone(), table[i].1.clone()));
        proof {
            assert(out@ =~= table@.take(i + 1));
        }
        i += 1;
    }
    proof {
        assert(table@.take(n as int) =~= table@);
    }
    out
}

} // verus!
