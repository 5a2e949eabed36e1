//! The taxonomy aggregator.
//!
//! For every configured taxonomy name, every page that binds that name to a
//! sequence of strings belongs to each of those "kinds".  The aggregator
//! groups page ids by kind: kinds appear in the order they are first seen,
//! and each kind's pages in page-discovery order.

use vstd::prelude::*;
use vstd::string::*;
use crate::value::str_eq;
use crate::page::{Page, spec_kinds_of};

verus! {

/// One taxonomy's index: kind name to the ids of the pages that declared it.
pub type KindTable = Vec<(String, Vec<String>)>;

/// Appends `id` under `kind`: the first entry for the kind gains the id, or
/// a new entry opens at the end.
pub open spec fn spec_add_kind(
    table: Seq<(Seq<char>, Seq<Seq<char>>)>,
    kind: Seq<char>,
    id: Seq<char>,
) -> Seq<(Seq<char>, Seq<Seq<char>>)>
    decreases table.len(),
{
    if table.len() == 0 {
        seq![(kind, seq![id])]
    } else if table[0].0 == kind {
        seq![(table[0].0, table[0].1.push(id))] + table.skip(1)
    } else {
        seq![table[0]] + spec_add_kind(table.skip(1), kind, id)
    }
}

/// Appends `id` under each kind in turn.
pub open spec fn spec_add_kinds(
    table: Seq<(Seq<char>, Seq<Seq<char>>)>,
    kinds: Seq<Seq<char>>,
    id: Seq<char>,
) -> Seq<(Seq<char>, Seq<Seq<char>>)>
    decreases kinds.len(),
{
    if kinds.len() == 0 {
        table
    } else {
        spec_add_kinds(spec_add_kind(table, kinds[0], id), kinds.skip(1), id)
    }
}

/// The index one taxonomy accumulates over a prefix of the pages.
pub open spec fn spec_kind_table(pages: Seq<Page>, taxo: Seq<char>) -> Seq<
    (Seq<char>, Seq<Seq<char>>),
>
    decreases pages.len(),
{
    if pages.len() == 0 {
        Seq::empty()
    } else {
        spec_add_kinds(
            spec_kind_table(pages.drop_last(), taxo),
            spec_kinds_of(pages.last().front_matter@, taxo),
            pages.last().page_id@,
        )
    }
}

/// Appends `id` under `kind` in the running table.
fn add_kind(table: &mut KindTable, kind: &String, id: &String)
    ensures
        final(table).deep_view() == spec_add_kind(old(table).deep_view(), kind@, id@),
{
    let n = table.len();
    let mut i: usize = 0;
    while i < n
        invariant
            i <= n,
            n == table@.len(),
            table@ == old(table)@,
            forall|j: int| 0 <= j < i ==> #[trigger] table@[j].0@ != kind@,
        decreases n - i,
    {
        if str_eq(table[i].0.as_str(), kind.as_str()) {
            let ghost before = table.deep_view();
            table[i].1.push(id.clone());
            proof {
                lemma_add_kind_at(before, i as int, kind@, id@);
                assert(table.deep_view() =~~= spec_add_kind(before, kind@, id@));
            }
            return ;
        }
        i += 1;
    }
    let ghost before = table.deep_view();
    let mut ids: Vec<String> = Vec::new();
    ids.push(id.clone());
    table.push((kind.clone(), ids));
    proof {
        lemma_add_kind_fresh(before, kind@, id@);
        assert(table.deep_view() =~~= spec_add_kind(before, kind@, id@));
    }
}

/// Appending under a kind found first at `i` touches only that entry.
proof fn lemma_add_kind_at(
    table: Seq<(Seq<char>, Seq<Seq<char>>)>,
    i: int,
    kind: Seq<char>,
    id: Seq<char>,
)
    requires
        0 <= i < table.len(),
        table[i].0 == kind,
        forall|j: int| 0 <= j < i ==> table[j].0 != kind,
    ensures
        spec_add_kind(table, kind, id) =~= table.update(i, (kind, table[i].1.push(id))),
    decreases i,
{
    if i == 0 {
        assert(spec_add_kind(table, kind, id) =~= table.update(0, (kind, table[0].1.push(id))));
    } else {
        lemma_add_kind_at(table.skip(1), i - 1, kind, id);
        assert(table.skip(1).update(i - 1, (kind, table[i].1.push(id))) =~= table.update(
            i,
            (kind, table[i].1.push(id)),
        ).skip(1));
        assert(spec_add_kind(table, kind, id) =~= table.update(i, (kind, table[i].1.push(id))));
    }
}

/// Appending under an unseen kind opens a new entry at the end.
proof fn lemma_add_kind_fresh(table: Seq<(Seq<char>, Seq<Seq<char>>)>, kind: Seq<char>, id: Seq<char>)
    requires
        forall|j: int| 0 <= j < table.len() ==> table[j].0 != kind,
    ensures
        spec_add_kind(table, kind, id) =~= table.push((kind, seq![id])),
    decreases table.len(),
{
    if table.len() > 0 {
        lemma_add_kind_fresh(table.skip(1), kind, id);
        assert(table.push((kind, seq![id])).skip(1) =~= table.skip(1).push((kind, seq![id])));
    }
}

/// Builds every taxonomy's index: for each configured name, in order, every
/// page's declared kinds are folded in, in page order.
pub fn build_taxonomies(taxonomies: &Vec<String>, pages: &Vec<Page>) -> (r: Vec<(
    String,
    KindTable,
)>)
    ensures
        r@.len() == taxonomies@.len(),
        forall|t: int|
            0 <= t < r@.len() ==> #[trigger] r@[t].0@ == taxonomies@[t]@ && r@[t].1.deep_view()
                == spec_kind_table(pages@, taxonomies@[t]@),
{
    let tn = taxonomies.len();
    let mut out: Vec<(String, KindTable)> = Vec::new();
    let mut t: usize = 0;
    while t < tn
        invariant
            t <= tn,
            tn == taxonomies@.len(),
            out@.len() == t,
            forall|k: int|
                0 <= k < t ==> #[trigger] out@[k].0@ == taxonomies@[k]@ && out@[k].1.deep_view()
                    == spec_kind_table(pages@, taxonomies@[k]@),
        decreases tn - t,
    {
        let taxo = &taxonomies[t];
        let mut table: KindTable = Vec::new();
        let pn = pages.len();
        let mut p: usize = 0;
        proof {
            assert(table.deep_view() =~= spec_kind_table(pages@.take(0), taxo@));
        }
        while p < pn
            invariant
                p <= pn,
                pn == pages@.len(),
                table.deep_view() == spec_kind_table(pages@.take(p as int), taxo@),
            decreases pn - p,
        {
            proof {
                assert(pages@.take(p + 1).drop_last() =~= pages@.take(p as int));
                assert(pages@.take(p + 1).last() == pages@[p as int]);
            }
            let kinds = pages[p].belongs_to_kind(taxo.as_str());
            let id = pages[p].get_page_id().clone();
            let kn = kinds.len();
            let ghost start = table.deep_view();
            let ghost all_kinds = kinds.deep_view();
            let mut k: usize = 0;
            proof {
                assert(all_kinds.skip(0) =~= all_kinds);
            }
            while k < kn
                invariant
                    k <= kn,
                    kn == kinds@.len(),
                    all_kinds == kinds.deep_view(),
                    all_kinds.len() == kn,
                    id@ == pages@[p as int].page_id@,
                    p < pn,
                    pn == pages@.len(),
                    spec_add_kinds(start, all_kinds, id@) == spec_add_kinds(
                        table.deep_view(),
                        all_kinds.skip(k as int),
                        id@,
                    ),
                decreases kn - k,
            {
                proof {
                    assert(all_kinds.skip(k as int)[0] == all_kinds[k as int]);
                    assert(all_kinds.skip(k as int).skip(1) =~= all_kinds.skip(k + 1));
                    assert(all_kinds[k as int] == kinds@[k as int]@);
                }
                add_kind(&mut table, &kinds[k], &id);
                k += 1;
            }
            proof {
                assert(all_kinds.skip(kn as int) =~= Seq::<Seq<char>>::empty());
            }
            p += 1;
        }
        proof {
            assert(pages@.take(pn as int) =~= pages@);
        }
        out.push((taxo.clone(), table));
        t += 1;
    }
    out
}

} // verus!
