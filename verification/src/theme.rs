//! Themes: an override layer merged beneath the content tree.
//!
//! A theme brings its own configuration, template, partial and converter
//! tables, and a source tree of its own.  Content always wins over theme:
//! a theme entry is only taken where the content tree has nothing of that
//! name, and a directory present in both is merged recursively.  The merge
//! never deletes or overwrites a content entry.

use vstd::prelude::*;
use vstd::string::*;
use crate::value::{FmValue, str_eq};
use crate::tree::{SourceEntry, source_name};
use crate::config::get_theme_name;
use crate::BuildError;

verus! {

broadcast use vstd::std_specs::vec::axiom_vec_decreases_to_view, vstd::std_specs::vec::axiom_vec_index_decreases;

/// A theme: its configuration, its name, and its template, partial and
/// converter tables (name to program or template path).
#[derive(Debug)]
pub struct Theme {
    /// The theme's own configuration.
    pub config: Vec<(String, FmValue)>,
    /// The theme's reusable template fragments, name to path.
    pub partial_list: Vec<(String, Vec<String>)>,
    /// The theme's converters, name to path.
    pub converter_list: Vec<(String, Vec<String>)>,
    /// The theme's layouts, name to path.
    pub template_list: Vec<(String, Vec<String>)>,
    /// The theme's declared name.
    pub theme_name: String,
}

impl Theme {
    /// Assembles a theme from its parsed configuration and discovered
    /// tables.  The configuration must declare `theme_name`.
    pub fn new(
        config: Vec<(String, FmValue)>,
        partial_list: Vec<(String, Vec<String>)>,
        converter_list: Vec<(String, Vec<String>)>,
        template_list: Vec<(String, Vec<String>)>,
    ) -> (r: Result<Theme, BuildError>)
        ensures
            match r {
                Ok(t) => {
                    &&& crate::config::spec_string_from_config(config@, "theme_name"@) == Some(
                        t.theme_name@,
                    )
                    &&& t.config == config
                    &&& t.partial_list == partial_list
                    &&& t.converter_list == converter_list
                    &&& t.template_list == template_list
                },
                Err(e) => crate::config::spec_string_from_config(config@, "theme_name"@) is None
                    && e is MissingThemeName,
            },
    {
        let theme_name = match get_theme_name(&config) {
            Ok(n) => n,
            Err(e) => {
                return Err(e);
            },
        };
        Ok(Theme { config, partial_list, converter_list, template_list, theme_name })
    }
}

/// Whether the entries hold a directory named `name`.
pub open spec fn spec_has_dir(entries: Seq<SourceEntry>, name: Seq<char>) -> bool {
    exists|i: int|
        0 <= i < entries.len() && entries[i] is Dir && source_name(#[trigger] entries[i]) == name
}

/// Whether the entries hold a file — page or static — named `name`.
pub open spec fn spec_has_file(entries: Seq<SourceEntry>, name: Seq<char>) -> bool {
    exists|i: int|
        0 <= i < entries.len() && !(entries[i] is Dir) && source_name(#[trigger] entries[i])
            == name
}

/// Whether a theme entry is shadowed by the content entries: a theme
/// directory by a content directory of the same name, a theme file by a
/// content file of the same name.
pub open spec fn spec_shadowed(content: Seq<SourceEntry>, e: SourceEntry) -> bool {
    if e is Dir {
        spec_has_dir(content, source_name(e))
    } else {
        spec_has_file(content, source_name(e))
    }
}

/// The theme entries the content does not shadow, in theme order.
pub open spec fn spec_theme_extras(content: Seq<SourceEntry>, theme: Seq<SourceEntry>) -> Seq<
    SourceEntry,
>
    decreases theme.len(),
{
    if theme.len() == 0 {
        Seq::empty()
    } else {
        (if spec_shadowed(content, theme[0]) {
            Seq::empty()
        } else {
            seq![theme[0]]
        }) + spec_theme_extras(content, theme.skip(1))
    }
}

/// Reading one more theme entry extends the extras by that entry, or by
/// nothing where it is shadowed.
proof fn lemma_theme_extras_snoc(content: Seq<SourceEntry>, theme: Seq<SourceEntry>, e: SourceEntry)
    ensures
        spec_theme_extras(content, theme.push(e)) == spec_theme_extras(content, theme) + (
        if spec_shadowed(content, e) {
            Seq::<SourceEntry>::empty()
        } else {
            seq![e]
        }),
    decreases theme.len(),
{
    if theme.len() == 0 {
        assert(theme.push(e)[0] == e);
        assert(theme.push(e).skip(1) =~= Seq::<SourceEntry>::empty());
        assert(spec_theme_extras(content, Seq::<SourceEntry>::empty())
            == Seq::<SourceEntry>::empty());
        if spec_shadowed(content, e) {
            assert(spec_theme_extras(content, theme.push(e)) =~= spec_theme_extras(
                content,
                theme,
            ));
        } else {
            assert(spec_theme_extras(content, theme.push(e)) =~= spec_theme_extras(content, theme)
                + seq![e]);
        }
    } else {
        assert(theme.push(e).skip(1) =~= theme.skip(1).push(e));
        lemma_theme_extras_snoc(content, theme.skip(1), e);
        assert(spec_theme_extras(content, theme.push(e)) =~= spec_theme_extras(content, theme) + (
        if spec_shadowed(content, e) {
            Seq::<SourceEntry>::empty()
        } else {
            seq![e]
        }));
    }
}

/// The shape a merge leaves behind: content entries keep their place —
/// directories present in both keep their kind and name, every other
/// content entry stays untouched — and the unshadowed theme entries stand
/// appended, whole, in theme order.
pub open spec fn spec_merged_shape(
    m: Seq<SourceEntry>,
    content: Seq<SourceEntry>,
    theme: Seq<SourceEntry>,
) -> bool {
    &&& m.len() == content.len() + spec_theme_extras(content, theme).len()
    &&& forall|i: int|
        0 <= i < content.len() ==> (match content[i] {
            SourceEntry::Dir { .. } => m[i] is Dir && source_name(#[trigger] m[i]) == source_name(
                content[i],
            ),
            _ => m[i] == content[i],
        })
    &&& forall|j: int|
        0 <= j < spec_theme_extras(content, theme).len() ==> m[content.len() + j]
            == spec_theme_extras(content, theme)[j]
}


/// The first directory entry bearing `name`, if any.
pub open spec fn spec_find_dir_index(t: Seq<SourceEntry>, name: Seq<char>) -> Option<int>
    decreases t.len(),
{
    if t.len() == 0 {
        None
    } else if t[0] is Dir && source_name(t[0]) == name {
        Some(0)
    } else {
        match spec_find_dir_index(t.skip(1), name) {
            Some(i) => Some(i + 1),
            None => None,
        }
    }
}

/// The found index holds a directory of the name, nothing before it does,
/// and a miss means no directory bears it.
proof fn lemma_find_dir_props(t: Seq<SourceEntry>, name: Seq<char>)
    ensures
        spec_find_dir_index(t, name) matches Some(i) ==> 0 <= i < t.len() && t[i] is Dir
            && source_name(t[i]) == name && (forall|m: int|
            0 <= m < i ==> !((#[trigger] t[m]) is Dir && source_name(t[m]) == name)),
        spec_find_dir_index(t, name) is None ==> forall|m: int|
            0 <= m < t.len() ==> !((#[trigger] t[m]) is Dir && source_name(t[m]) == name),
    decreases t.len(),
{
    if t.len() > 0 && !(t[0] is Dir && source_name(t[0]) == name) {
        lemma_find_dir_props(t.skip(1), name);
        match spec_find_dir_index(t.skip(1), name) {
            Some(i) => {
                assert forall|m: int| 0 <= m < i + 1 implies !((#[trigger] t[m]) is Dir
                    && source_name(t[m]) == name) by {
                    if m > 0 {
                        assert(t.skip(1)[m - 1] == t[m]);
                    }
                }
                assert(t.skip(1)[i] == t[i + 1]);
            },
            None => {
                assert forall|m: int| 0 <= m < t.len() implies !((#[trigger] t[m]) is Dir
                    && source_name(t[m]) == name) by {
                    if m > 0 {
                        assert(t.skip(1)[m - 1] == t[m]);
                    }
                }
            },
        }
    }
}

/// The scan's first directory hit is what the search finds.
proof fn lemma_find_dir_at(t: Seq<SourceEntry>, i: int, name: Seq<char>)
    requires
        0 <= i < t.len(),
        t[i] is Dir,
        source_name(t[i]) == name,
        forall|m: int| 0 <= m < i ==> !((#[trigger] t[m]) is Dir && source_name(t[m]) == name),
    ensures
        spec_find_dir_index(t, name) == Some(i),
    decreases i,
{
    if i > 0 {
        assert forall|m: int| 0 <= m < i - 1 implies !((#[trigger] t.skip(1)[m]) is Dir
            && source_name(t.skip(1)[m]) == name) by {
            assert(t.skip(1)[m] == t[m + 1]);
        }
        assert(t.skip(1)[i - 1] == t[i]);
        lemma_find_dir_at(t.skip(1), i - 1, name);
    }
}

/// The merge, recursively: beyond the merged shape, a content directory
/// whose name no theme directory bears stays untouched, and — where the
/// theme has exactly one directory of the name and this is the first
/// content directory bearing it — the kept directory's entries are the two
/// entry lists merged, recursively.
pub open spec fn spec_merged_rec(
    m: Seq<SourceEntry>,
    c: Seq<SourceEntry>,
    t: Seq<SourceEntry>,
) -> bool
    decreases c,
{
    &&& spec_merged_shape(m, c, t)
    &&& forall|i: int|
        0 <= i < c.len() ==> (match #[trigger] c[i] {
            SourceEntry::Dir { name, entries } => (match spec_find_dir_index(t, name@) {
                None => m[i] == c[i],
                Some(ti) => (spec_find_dir_index(t.skip(ti + 1), name@) is None
                    && spec_find_dir_index(c, name@) == Some(i)) ==> (m[i] is Dir
                    && spec_merged_rec(m[i]->Dir_entries@, entries@, t[ti]->Dir_entries@)),
            }),
            _ => true,
        })
}


/// The content-directory invariant of the merge, as it stands after `j`
/// theme entries.
pub open spec fn spec_merge_dirs_inv(
    out: Seq<SourceEntry>,
    c: Seq<SourceEntry>,
    t: Seq<SourceEntry>,
    clen: int,
    j: int,
) -> bool {
    forall|i: int|
        0 <= i < clen ==> (match #[trigger] c[i] {
            SourceEntry::Dir { name, entries } => (match spec_find_dir_index(t, name@) {
                None => out[i] == c[i],
                Some(ti) => {
                    &&& (ti >= j ==> out[i] == c[i])
                    &&& ((ti < j && spec_find_dir_index(t.skip(ti + 1), name@) is None
                        && spec_find_dir_index(c, name@) == Some(i)) ==> (out[i] is Dir
                        && spec_merged_rec(
                        out[i]->Dir_entries@,
                        entries@,
                        t[ti]->Dir_entries@,
                    )))
                },
            }),
            _ => true,
        })
}

/// One theme entry preserves the content-directory invariant: an entry that
/// merges updates exactly the first content directory of its name, and any
/// other entry leaves the content slots alone.
proof fn lemma_merge_dirs_inv_step(
    out1: Seq<SourceEntry>,
    out2: Seq<SourceEntry>,
    c: Seq<SourceEntry>,
    t: Seq<SourceEntry>,
    clen: int,
    j: int,
    updated: Option<int>,
)
    requires
        clen <= c.len(),
        0 <= j < t.len(),
        spec_merge_dirs_inv(out1, c, t, clen, j),
        match updated {
            None => (forall|i: int| 0 <= i < clen ==> #[trigger] out2[i] == out1[i]) && (!(t[j]
                is Dir) || (forall|m: int|
                0 <= m < clen ==> !((#[trigger] c[m]) is Dir && source_name(c[m]) == source_name(
                    t[j],
                )))),
            Some(fi) => {
                &&& 0 <= fi < clen
                &&& (forall|i: int| 0 <= i < clen && i != fi ==> #[trigger] out2[i] == out1[i])
                &&& t[j] is Dir
                &&& c[fi] is Dir
                &&& source_name(c[fi]) == source_name(t[j])
                &&& (forall|m: int|
                    0 <= m < fi ==> !((#[trigger] c[m]) is Dir && source_name(c[m])
                        == source_name(t[j])))
                &&& out2[fi] is Dir
                &&& source_name(out2[fi]) == source_name(c[fi])
                &&& (spec_find_dir_index(t, source_name(t[j])) == Some(j)
                    ==> spec_merged_rec(
                    out2[fi]->Dir_entries@,
                    c[fi]->Dir_entries@,
                    t[j]->Dir_entries@,
                ))
            },
        },
    ensures
        spec_merge_dirs_inv(out2, c, t, clen, j + 1),
{
    assert forall|i: int| 0 <= i < clen implies (match #[trigger] c[i] {
        SourceEntry::Dir { name, entries } => (match spec_find_dir_index(t, name@) {
            None => out2[i] == c[i],
            Some(ti) => {
                &&& (ti >= j + 1 ==> out2[i] == c[i])
                &&& ((ti < j + 1 && spec_find_dir_index(t.skip(ti + 1), name@) is None
                    && spec_find_dir_index(c, name@) == Some(i)) ==> (out2[i] is Dir
                    && spec_merged_rec(
                    out2[i]->Dir_entries@,
                    entries@,
                    t[ti]->Dir_entries@,
                )))
            },
        }),
        _ => true,
    }) by {
        match c[i] {
            SourceEntry::Dir { name, entries } => {
                lemma_find_dir_props(t, name@);
                match spec_find_dir_index(t, name@) {
                    None => {
                        // no theme directory bears this name, so this
                        // iteration cannot have merged into the slot
                        match updated {
                            None => {},
                            Some(fi) => {
                                if i == fi {
                                    assert(t[j] is Dir && source_name(t[j]) == name@);
                                    assert(false);
                                }
                            },
                        }
                    },
                    Some(ti) => {
                        if ti >= j + 1 {
                            // the first theme directory of the name is yet
                            // to come: the slot stays untouched
                            match updated {
                                None => {},
                                Some(fi) => {
                                    if i == fi {
                                        assert(t[j] is Dir && source_name(t[j]) == name@);
                                        assert(false);
                                    }
                                },
                            }
                        }
                        if ti < j + 1 && spec_find_dir_index(t.skip(ti + 1), name@) is None
                            && spec_find_dir_index(c, name@) == Some(i) {
                            lemma_find_dir_props(c, name@);
                            if ti < j {
                                // merged on an earlier iteration; this one
                                // left the slot alone
                                match updated {
                                    None => {},
                                    Some(fi) => {
                                        if i == fi {
                                            assert(source_name(t[j]) == name@);
                                            assert(t.skip(ti + 1)[j - ti - 1] == t[j]);
                                            lemma_find_dir_props(t.skip(ti + 1), name@);
                                            assert(false);
                                        }
                                    },
                                }
                            } else {
                                // ti == j: this very iteration merged here
                                match updated {
                                    None => {
                                        assert(t[j] is Dir && source_name(t[j]) == name@);
                                        assert(c[i] is Dir && source_name(c[i]) == name@);
                                        assert(false);
                                    },
                                    Some(fi) => {
                                        assert(source_name(t[j]) == name@);
                                        lemma_find_dir_at(c, fi, name@);
                                        assert(fi == i);
                                    },
                                }
                            }
                        }
                    },
                }
            },
            _ => {},
        }
    }
}

/// Merges a theme's entries beneath the content's: content entries keep
/// their place — directories present in both are merged recursively, every
/// other content entry stays untouched — and unshadowed theme entries are
/// appended, whole, in theme order.
pub fn merge_source_trees(content: Vec<SourceEntry>, theme: Vec<SourceEntry>) -> (r: Vec<
    SourceEntry,
>)
    ensures
        spec_merged_rec(r@, content@, theme@),
    decreases theme,
{
    let ghost orig_content = content@;
    let ghost orig_theme = theme@;
    let clen = content.len();
    let mut out = content;
    let mut rest = theme;
    let mut j: usize = 0;
    let tn = rest.len();
    proof {
        assert forall|i: int| 0 <= i < clen implies (match #[trigger] orig_content[i] {
            SourceEntry::Dir { name, entries } => (match spec_find_dir_index(orig_theme, name@) {
                None => out@[i] == orig_content[i],
                Some(ti) => {
                    &&& (ti >= 0 ==> out@[i] == orig_content[i])
                    &&& ((ti < 0 && spec_find_dir_index(orig_theme.skip(ti + 1), name@) is None
                        && spec_find_dir_index(orig_content, name@) == Some(i)) ==> (out@[i]
                        is Dir && spec_merged_rec(
                        out@[i]->Dir_entries@,
                        entries@,
                        orig_theme[ti]->Dir_entries@,
                    )))
                },
            }),
            _ => true,
        }) by {
            assert(out@[i] == orig_content[i]);
            match orig_content[i] {
                SourceEntry::Dir { name, .. } => {
                    lemma_find_dir_props(orig_theme, name@);
                },
                _ => {},
            }
        }
        assert(spec_merge_dirs_inv(out@, orig_content, orig_theme, clen as int, 0));
    }
    while j < tn
        invariant
            j <= tn,
            tn == orig_theme.len(),
            rest@ =~= orig_theme.skip(j as int),
            clen == orig_content.len(),
            out@.len() == clen + spec_theme_extras(orig_content, orig_theme.take(j as int)).len(),
            forall|i: int|
                0 <= i < clen ==> (match orig_content[i] {
                    SourceEntry::Dir { .. } => out@[i] is Dir && source_name(#[trigger] out@[i])
                        == source_name(orig_content[i]),
                    _ => out@[i] == orig_content[i],
                }),
            forall|k: int|
                0 <= k < spec_theme_extras(orig_content, orig_theme.take(j as int)).len()
                    ==> out@[clen + k] == spec_theme_extras(
                    orig_content,
                    orig_theme.take(j as int),
                )[k],
            spec_merge_dirs_inv(out@, orig_content, orig_theme, clen as int, j as int),
            theme@ == orig_theme,
        decreases tn - j,
    {
        proof {
            lemma_theme_extras_snoc(orig_content, orig_theme.take(j as int), orig_theme[j as int]);
            assert(orig_theme.take(j as int).push(orig_theme[j as int]) =~= orig_theme.take(
                j + 1,
            ));
            assert(rest@[0] == orig_theme[j as int]);
            assert(rest@.skip(1) =~= orig_theme.skip(j + 1));
        }
        let te = rest.remove(0);
        let ghost te_spec = te;
        let is_dir = match &te {
            SourceEntry::Dir { .. } => true,
            _ => false,
        };
        // look for a shadowing content entry, among the content's slots only
        let mut found: Option<usize> = None;
        let mut i: usize = 0;
        while i < clen
            invariant
                i <= clen,
                clen <= out@.len(),
                clen == orig_content.len(),
                te == te_spec,
                is_dir == te_spec is Dir,
                forall|m: int|
                    0 <= m < clen ==> (match orig_content[m] {
                        SourceEntry::Dir { .. } => out@[m] is Dir && source_name(
                            #[trigger] out@[m],
                        ) == source_name(orig_content[m]),
                        _ => out@[m] == orig_content[m],
                    }),
                match found {
                    Some(fi) => (fi as int) < clen && ((is_dir && out@[fi as int] is Dir
                        && orig_content[fi as int] is Dir) || (!is_dir && !(orig_content[fi as int]
                        is Dir))) && source_name(orig_content[fi as int]) == source_name(te_spec)
                        && (forall|m: int|
                        0 <= m < fi ==> !((orig_content[m] is Dir) == (te_spec is Dir)
                            && source_name(#[trigger] orig_content[m]) == source_name(te_spec))),
                    None => forall|m: int|
                        0 <= m < i ==> !((orig_content[m] is Dir) == (te_spec is Dir)
                            && source_name(#[trigger] orig_content[m]) == source_name(te_spec)),
                },
            decreases clen - i,
        {
            if found.is_none() {
                let kind_i_dir = match &out[i] {
                    SourceEntry::Dir { .. } => true,
                    _ => false,
                };
                let name_i = match &out[i] {
                    SourceEntry::Dir { name, .. } => name,
                    SourceEntry::PageFile { name, .. } => name,
                    SourceEntry::StaticFile { name, .. } => name,
                };
                let name_t = match &te {
                    SourceEntry::Dir { name, .. } => name,
                    SourceEntry::PageFile { name, .. } => name,
                    SourceEntry::StaticFile { name, .. } => name,
                };
                if kind_i_dir == is_dir && str_eq(name_i.as_str(), name_t.as_str()) {
                    found = Some(i);
                }
            }
            i += 1;
        }
        if is_dir {
            match found {
                Some(fi) => {
                    proof {
                        assert(spec_shadowed(orig_content, te_spec));
                        assert(decreases_to!(theme => theme@));
                        assert(decreases_to!(theme@ => theme@[j as int]));
                        assert(decreases_to!(theme@[j as int] => theme@[j as int]->Dir_entries));
                    }
                    proof {
                        let nm = source_name(te_spec);
                        lemma_find_dir_at(orig_content, fi as int, nm);
                        lemma_find_dir_props(orig_theme, nm);
                        if spec_find_dir_index(orig_theme, nm) is None {
                            assert(!(orig_theme[j as int] is Dir && source_name(
                                orig_theme[j as int],
                            ) == nm));
                            assert(false);
                        }
                        let ti0 = spec_find_dir_index(orig_theme, nm)->0;
                        if ti0 > j as int {
                            assert(!(orig_theme[j as int] is Dir && source_name(
                                orig_theme[j as int],
                            ) == nm));
                            assert(false);
                        }
                    }
                    match te {
                        SourceEntry::Dir { name: _tname, entries: tentries } => {
                            proof {
                                assert(te_spec == theme@[j as int]);
                                assert(tentries == theme@[j as int]->Dir_entries);
                            }
                            let ghost out_before = out@;
                            let ce = out.remove(fi);
                            proof {
                                let nm = source_name(te_spec);
                                let ti0 = spec_find_dir_index(orig_theme, nm)->0;
                                if ti0 == j as int {
                                    assert(ce == orig_content[fi as int]);
                                }
                            }
                            match ce {
                                SourceEntry::Dir { name: cname, entries: centries } => {
                                    let ghost ce_spec = ce;
                                    let merged = merge_source_trees(centries, tentries);
                                    out.insert(
                                        fi,
                                        SourceEntry::Dir { name: cname, entries: merged },
                                    );
                                    proof {
                                        assert(out@ =~= out_before.update(
                                            fi as int,
                                            out@[fi as int],
                                        ));
                                        assert(out@[fi as int] is Dir);
                                        assert(source_name(out@[fi as int]) == source_name(
                                            orig_content[fi as int],
                                        ));
                                        let nm = source_name(te_spec);
                                        let ti0 = spec_find_dir_index(orig_theme, nm)->0;
                                        if ti0 == j as int {
                                            assert(out@[fi as int]->Dir_entries@ == merged@);
                                            assert(ce_spec == orig_content[fi as int]);
                                            assert(centries@
                                                == orig_content[fi as int]->Dir_entries@);
                                            assert(tentries@
                                                == orig_theme[j as int]->Dir_entries@);
                                            assert(spec_merged_rec(
                                                merged@,
                                                orig_content[fi as int]->Dir_entries@,
                                                orig_theme[ti0]->Dir_entries@,
                                            ));
                                        } else {
                                            // an earlier theme directory of the name already
                                            // merged: the single-directory condition fails
                                            assert(orig_theme.skip(ti0 + 1)[j - ti0 - 1]
                                                == orig_theme[j as int]);
                                            lemma_find_dir_props(
                                                orig_theme.skip(ti0 + 1),
                                                nm,
                                            );
                                            assert(spec_find_dir_index(
                                                orig_theme.skip(ti0 + 1),
                                                nm,
                                            ) is Some);
                                        }
                                        assert forall|i2: int|
                                            0 <= i2 < clen && i2 != fi as int
                                                implies #[trigger] out@[i2] == out_before[i2] by {}
                                        lemma_merge_dirs_inv_step(
                                            out_before,
                                            out@,
                                            orig_content,
                                            orig_theme,
                                            clen as int,
                                            j as int,
                                            Some(fi as int),
                                        );
                                    }
                                },
                                other => {
                                    // the found slot holds a directory
                                    proof {
                                        assert(false);
                                    }
                                    out.insert(fi, other);
                                },
                            }
                        },
                        other => {
                            // a directory entry was matched above
                            proof {
                                assert(false);
                            }
                            let _ = other;
                        },
                    }
                },
                None => {
                    let ghost out_before2 = out@;
                    proof {
                        assert(!spec_shadowed(orig_content, te_spec));
                    }
                    out.push(te);
                    proof {
                        assert forall|i2: int| 0 <= i2 < clen implies #[trigger] out@[i2]
                            == out_before2[i2] by {}
                        assert forall|m: int| 0 <= m < clen implies !((#[trigger] orig_content[m])
                            is Dir && source_name(orig_content[m]) == source_name(
                            orig_theme[j as int],
                        )) by {}
                        lemma_merge_dirs_inv_step(
                            out_before2,
                            out@,
                            orig_content,
                            orig_theme,
                            clen as int,
                            j as int,
                            None,
                        );
                    }
                },
            }
        } else {
            let ghost out_before3 = out@;
            match found {
                Some(_fi) => {
                    // a shadowed theme file: dropped
                    proof {
                        assert(spec_shadowed(orig_content, te_spec));
                    }
                },
                None => {
                    proof {
                        assert(!spec_shadowed(orig_content, te_spec));
                    }
                    out.push(te);
                },
            }
            proof {
                assert forall|i2: int| 0 <= i2 < clen implies #[trigger] out@[i2]
                    == out_before3[i2] by {}
                assert(!(orig_theme[j as int] is Dir));
                lemma_merge_dirs_inv_step(
                    out_before3,
                    out@,
                    orig_content,
                    orig_theme,
                    clen as int,
                    j as int,
                    None,
                );
            }
        }
        j += 1;
    }
    proof {
        assert(orig_theme.take(tn as int) =~= orig_theme);
        assert forall|i: int| 0 <= i < clen implies (match #[trigger] orig_content[i] {
            SourceEntry::Dir { name, entries } => (match spec_find_dir_index(orig_theme, name@) {
                None => out@[i] == orig_content[i],
                Some(ti) => (spec_find_dir_index(orig_theme.skip(ti + 1), name@) is None
                    && spec_find_dir_index(orig_content, name@) == Some(i)) ==> (out@[i] is Dir
                    && spec_merged_rec(
                    out@[i]->Dir_entries@,
                    entries@,
                    orig_theme[ti]->Dir_entries@,
                )),
            }),
            _ => true,
        }) by {
            match orig_content[i] {
                SourceEntry::Dir { name, .. } => {
                    lemma_find_dir_props(orig_theme, name@);
                },
                _ => {},
            }
        }
        assert(spec_merged_rec(out@, orig_content, orig_theme));
    }
    out
}

} // verus!
