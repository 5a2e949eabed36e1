//! Layouts and the layout chain.
//!
//! A layout is a named template together with the parent layout its own
//! front matter declares (the empty string when none).  Rendering a page
//! threads its content through the layout named by the page, then through
//! that layout's parent, and so on until a name no layout answers to.  The
//! chain is computed — and checked for cycles — before any rendering
//! happens; a page that names no layout passes its content through
//! byte-for-byte.

use vstd::prelude::*;
use vstd::string::*;
use crate::value::{
    FmValue, FmView, assoc_lookup, assoc_has, assoc_get, assoc_has_key, fm_dict_view, str_eq,
};
use crate::BuildError;

verus! {

/// A layout: the parent its front matter declares, and the front matter
/// itself.  The compiled template lives with the caller, under the same
/// name.
#[derive(Debug)]
pub struct Layout {
    /// The parent layout's name; empty when none is declared.
    pub parent: String,
    /// The layout's own front matter.
    pub front_matter: Vec<(String, FmValue)>,
}

/// The shape of a layout.
pub struct LayoutView {
    /// The parent layout's name.
    pub parent: Seq<char>,
    /// The shape of the layout's front matter.
    pub front_matter: Seq<(Seq<char>, FmView)>,
}

impl DeepView for Layout {
    type V = LayoutView;

    open spec fn deep_view(&self) -> LayoutView {
        LayoutView { parent: self.parent@, front_matter: fm_dict_view(self.front_matter@) }
    }
}

/// The parent a front matter declares: its `layout` value if a string, else
/// the empty string.
pub open spec fn spec_declared_parent(fm: Seq<(String, FmValue)>) -> Seq<char> {
    match assoc_lookup(fm, "layout"@) {
        Some(FmView::Text(p)) => p,
        _ => Seq::empty(),
    }
}

impl Layout {
    /// Builds a layout from its front matter.
    pub fn new(fm: Vec<(String, FmValue)>) -> (r: Layout)
        ensures
            r.parent@ == spec_declared_parent(fm@),
            r.front_matter == fm,
    {
        let parent: String = match assoc_get(&fm, "layout") {
            Some(v) => match v.as_text() {
                Some(p) => p.clone(),
                None => String::new(),
            },
            None => String::new(),
        };
        Layout { parent, front_matter: fm }
    }

    /// The declared parent layout's name; empty when none.
    pub fn get_parent(&self) -> (r: &String)
        ensures
            r == &self.parent,
    {
        &self.parent
    }
}

/// The parent of the layout a table binds `name` to.
pub open spec fn spec_parent_of(templates: Seq<(String, Layout)>, name: Seq<char>) -> Option<
    Seq<char>,
> {
    match assoc_lookup(templates, name) {
        Some(l) => Some(l.parent),
        None => None,
    }
}

/// The name the chain walk stands at after `k` steps from `start`: each
/// step moves to the declared parent of the layout the table binds the
/// current name to, and stops moving once a name is unbound.
pub open spec fn spec_chain_walk(
    templates: Seq<(String, Layout)>,
    start: Seq<char>,
    k: nat,
) -> Seq<char>
    decreases k,
{
    if k == 0 {
        start
    } else {
        let prev = spec_chain_walk(templates, start, (k - 1) as nat);
        match assoc_lookup(templates, prev) {
            Some(l) => l.parent,
            None => prev,
        }
    }
}

/// A certificate that the parent chain from `start` cycles: either the walk
/// visibly revisits a name while staying inside the table, or it stays
/// inside the table for more steps than the table has entries — which only
/// a revisit allows.
pub open spec fn spec_chain_cycles(templates: Seq<(String, Layout)>, start: Seq<char>) -> bool {
    ||| exists|i: int, j: int|
        0 <= i < j <= templates.len() && (#[trigger] spec_chain_walk(templates, start, i as nat))
            == (#[trigger] spec_chain_walk(templates, start, j as nat)) && (forall|m: int|
            0 <= m <= j ==> assoc_has(
                templates,
                #[trigger] spec_chain_walk(templates, start, m as nat),
            ))
    ||| forall|m: int|
        0 <= m <= templates.len() ==> assoc_has(
            templates,
            #[trigger] spec_chain_walk(templates, start, m as nat),
        )
}

/// The layout chain from `start`: the names rendered through, in order.
/// On success the chain is exactly the walk from `start` up to the first
/// unbound name; the walk-after-the-chain is unbound, so each link is a
/// name the table answers to and each next link the previous layout's
/// declared parent.  The build fails — with a layout-cycle error — exactly
/// when the walk never leaves the table, so rendering is owed on every
/// acyclic table.
pub fn layout_chain(templates: &Vec<(String, Layout)>, start: &String) -> (r: Result<
    Vec<String>,
    BuildError,
>)
    ensures
        match r {
            Ok(chain) => {
                &&& chain@.len() <= templates@.len()
                &&& forall|i: int|
                    0 <= i < chain@.len() ==> #[trigger] chain@[i]@ == spec_chain_walk(
                        templates@,
                        start@,
                        i as nat,
                    )
                &&& !assoc_has(
                    templates@,
                    spec_chain_walk(templates@, start@, chain@.len() as nat),
                )
                &&& (chain@.len() == 0 ==> !assoc_has(templates@, start@))
                &&& (chain@.len() > 0 ==> chain@[0]@ == start@)
                &&& forall|i: int|
                    0 <= i < chain@.len() ==> assoc_has(templates@, #[trigger] chain@[i]@)
                &&& forall|i: int|
                    0 <= i < chain@.len() - 1 ==> spec_parent_of(templates@, #[trigger] chain@[i]@)
                        == Some(chain@[i + 1]@)
            },
            Err(e) => e is LayoutCycle && spec_chain_cycles(templates@, start@),
        },
{
    let mut chain: Vec<String> = Vec::new();
    let mut current: String = start.clone();
    let n = templates.len();
    let mut steps: usize = 0;
    loop
        invariant
            steps <= n,
            n == templates@.len(),
            chain@.len() == steps,
            current@ == spec_chain_walk(templates@, start@, steps as nat),
            forall|i: int|
                0 <= i < chain@.len() ==> #[trigger] chain@[i]@ == spec_chain_walk(
                    templates@,
                    start@,
                    i as nat,
                ),
            chain@.len() > 0 ==> chain@[0]@ == start@,
            forall|i: int| 0 <= i < chain@.len() ==> assoc_has(templates@, #[trigger] chain@[i]@),
            forall|i: int|
                0 <= i < chain@.len() - 1 ==> spec_parent_of(templates@, #[trigger] chain@[i]@)
                    == Some(chain@[i + 1]@),
        decreases n + 1 - steps,
    {
        match assoc_get(templates, current.as_str()) {
            None => {
                return Ok(chain);
            },
            Some(layout) => {
                if steps >= n {
                    // the walk stayed inside the table for more steps than
                    // the table has entries: some name must have come round
                    proof {
                        assert forall|m: int| 0 <= m <= templates@.len() implies assoc_has(
                            templates@,
                            #[trigger] spec_chain_walk(templates@, start@, m as nat),
                        ) by {
                            if m < templates@.len() {
                                assert(chain@[m]@ == spec_chain_walk(templates@, start@, m as nat));
                            } else {
                                assert(current@ == spec_chain_walk(templates@, start@, m as nat));
                            }
                        }
                    }
                    return Err(BuildError::LayoutCycle(current));
                }
                let mut seen = false;
                let m = chain.len();
                let mut j: usize = 0;
                while j < m
                    invariant
                        j <= m,
                        m == chain@.len(),
                        seen ==> exists|k: int| 0 <= k < m && chain@[k]@ == current@,
                    decreases m - j,
                {
                    if str_eq(chain[j].as_str(), current.as_str()) {
                        seen = true;
                    }
                    j += 1;
                }
                if seen {
                    proof {
                        let k0 = choose|k: int| 0 <= k < chain@.len() && chain@[k]@ == current@;
                        let jj: int = steps as int;
                        assert forall|m2: int| 0 <= m2 <= jj implies assoc_has(
                            templates@,
                            #[trigger] spec_chain_walk(templates@, start@, m2 as nat),
                        ) by {
                            if m2 < jj {
                                assert(chain@[m2]@ == spec_chain_walk(
                                    templates@,
                                    start@,
                                    m2 as nat,
                                ));
                            } else {
                                assert(current@ == spec_chain_walk(templates@, start@, m2 as nat));
                            }
                        }
                        assert(0 <= k0 < jj <= templates@.len());
                        assert((#[trigger] spec_chain_walk(templates@, start@, k0 as nat)) == (
                        #[trigger] spec_chain_walk(templates@, start@, jj as nat)));
                        assert(spec_chain_cycles(templates@, start@));
                    }
                    return Err(BuildError::LayoutCycle(current));
                }
                let parent = layout.get_parent().clone();
                chain.push(current);
                current = parent;
                steps += 1;
            },
        }
    }
}

/// What a page's emission does with its converted content: pass it through
/// untouched, or thread it through a chain of layouts.
#[derive(Debug)]
pub enum PageEmitPlan {
    /// No layout is named: the converted content is written byte-for-byte.
    PassThrough(String),
    /// The converted content is rendered through these layouts in order.
    Chain(String, Vec<String>),
}

/// Plans a page's emission from its configuration.  A page whose
/// configuration binds `layout` to a string gets that layout's chain — the
/// exact walk of declared parents — and planning fails only when that walk
/// cycles; any other page — no `layout` key, or a non-string value —
/// passes its converted content through unchanged, byte for byte.
pub fn plan_page_output(
    config: &Vec<(String, FmValue)>,
    templates: &Vec<(String, Layout)>,
    converted: String,
) -> (r: Result<PageEmitPlan, BuildError>)
    ensures
        (match assoc_lookup(config@, "layout"@) {
            Some(FmView::Text(_)) => true,
            _ => r matches Ok(p) && p matches PageEmitPlan::PassThrough(c) && c == converted,
        }),
        (match r {
            Ok(p) => match p {
                PageEmitPlan::PassThrough(c) => c == converted,
                PageEmitPlan::Chain(c, chain) => {
                    &&& c == converted
                    &&& (match assoc_lookup(config@, "layout"@) {
                        Some(FmView::Text(start)) => {
                            &&& chain@.len() <= templates@.len()
                            &&& forall|i: int|
                                0 <= i < chain@.len() ==> #[trigger] chain@[i]@ == spec_chain_walk(
                                    templates@,
                                    start,
                                    i as nat,
                                )
                            &&& !assoc_has(
                                templates@,
                                spec_chain_walk(templates@, start, chain@.len() as nat),
                            )
                            &&& (chain@.len() == 0 ==> !assoc_has(templates@, start))
                            &&& (chain@.len() > 0 ==> chain@[0]@ == start)
                            &&& forall|i: int|
                                0 <= i < chain@.len() ==> assoc_has(
                                    templates@,
                                    #[trigger] chain@[i]@,
                                )
                            &&& forall|i: int|
                                0 <= i < chain@.len() - 1 ==> spec_parent_of(
                                    templates@,
                                    #[trigger] chain@[i]@,
                                ) == Some(chain@[i + 1]@)
                        },
                        _ => false,
                    })
                },
            },
            Err(e) => e is LayoutCycle && (match assoc_lookup(config@, "layout"@) {
                Some(FmView::Text(start)) => spec_chain_cycles(templates@, start),
                _ => false,
            }),
        }),
{
    let start: Option<String> = match assoc_get(config, "layout") {
        Some(v) => match v.as_text() {
            Some(s) => Some(s.clone()),
            None => None,
        },
        None => None,
    };
    match start {
        None => Ok(PageEmitPlan::PassThrough(converted)),
        Some(s) => {
            let chain = match layout_chain(templates, &s) {
                Ok(c) => c,
                Err(e) => {
                    return Err(e);
                },
            };
            Ok(PageEmitPlan::Chain(converted, chain))
        },
    }
}

/// The `page` object a layout's render sees: the page's configuration with
/// the layout's own front matter merged in, the layout's `layout` key left
/// out, and the layout's other keys taking precedence.
pub fn merge_layout_into_page(
    page_config: &Vec<(String, FmValue)>,
    layout_fm: &Vec<(String, FmValue)>,
) -> (r: Vec<(String, FmValue)>)
    ensures
        forall|k: Seq<char>|
            #![trigger assoc_lookup(r@, k)]
            assoc_lookup(r@, k) == (if k != "layout"@ && assoc_has(layout_fm@, k) {
                assoc_lookup(layout_fm@, k)
            } else {
                assoc_lookup(page_config@, k)
            }),
{
    let mut out = crate::value::dict_dup(page_config);
    let n = layout_fm.len();
    let mut i: usize = n;
    proof {
        assert(layout_fm@.skip(n as int) =~= Seq::<(String, FmValue)>::empty());
    }
    while i > 0
        invariant
            i <= n,
            n == layout_fm@.len(),
            forall|k: Seq<char>|
                #![trigger assoc_lookup(out@, k)]
                assoc_lookup(out@, k) == (if k != "layout"@ && assoc_has(
                    layout_fm@.skip(i as int),
                    k,
                ) {
                    assoc_lookup(layout_fm@.skip(i as int), k)
                } else {
                    assoc_lookup(page_config@, k)
                }),
        decreases i,
    {
        i -= 1;
        proof {
            assert(layout_fm@.skip(i as int)[0] == layout_fm@[i as int]);
            assert(layout_fm@.skip(i as int).skip(1) =~= layout_fm@.skip(i + 1));
        }
        if !str_eq(layout_fm[i].0.as_str(), "layout") {
            let key = layout_fm[i].0.clone();
            let val = layout_fm[i].1.dup();
            crate::value::assoc_set(&mut out, key, val);
        }
    }
    proof {
        assert(layout_fm@.skip(0) =~= layout_fm@);
    }
    out
}

} // verus!
