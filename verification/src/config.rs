//! Configuration: reading settings and merging the theme's beneath them.
//!
//! A configuration is a front-matter-shaped document.  Every setting is
//! looked up in the site's own configuration first and in the theme's only
//! if absent — the same content-over-theme rule that governs template,
//! partial and converter names.

use vstd::prelude::*;
use vstd::string::*;
use crate::value::{
    FmValue, FmView, assoc_lookup, assoc_has, assoc_get, assoc_has_key, str_eq, fm_list_view,
    lemma_fm_list_view_index, lemma_fm_list_view_len, lemma_assoc_lookup_push,
};
use crate::page::texts_of;
use crate::BuildError;

verus! {

/// The string a configuration binds `key` to, if it binds it to a string.
pub open spec fn spec_string_from_config(config: Seq<(String, FmValue)>, key: Seq<char>) -> Option<
    Seq<char>,
> {
    match assoc_lookup(config, key) {
        Some(FmView::Text(s)) => Some(s),
        _ => None,
    }
}

/// The string a configuration binds `key` to, if it binds it to a string.
pub fn string_from_config(key: &str, config: &Vec<(String, FmValue)>) -> (r: Option<String>)
    ensures
        match r {
            Some(s) => spec_string_from_config(config@, key@) == Some(s@),
            None => spec_string_from_config(config@, key@) is None,
        },
{
    match assoc_get(config, key) {
        Some(v) => match v.as_text() {
            Some(s) => Some(s.clone()),
            None => None,
        },
        None => None,
    }
}

/// Picks a directory setting: the command line wins, then the configuration
/// file, then the built-in default.
pub fn decide_site_config(
    cli_config: Option<String>,
    yml_config: Option<String>,
    default_config: String,
) -> (r: String)
    ensures
        r == (match cli_config {
            Some(c) => c,
            None => match yml_config {
                Some(y) => y,
                None => default_config,
            },
        }),
{
    match cli_config {
        Some(c) => c,
        None => match yml_config {
            Some(y) => y,
            None => default_config,
        },
    }
}

/// Picks a theme directory setting: the theme's configuration file wins,
/// then the built-in default.
pub fn decide_theme_config(yml_config: Option<String>, default_config: String) -> (r: String)
    ensures
        r == (match yml_config {
            Some(y) => y,
            None => default_config,
        }),
{
    match yml_config {
        Some(y) => y,
        None => default_config,
    }
}

/// The theme's name, which its configuration must declare.
pub fn get_theme_name(config: &Vec<(String, FmValue)>) -> (r: Result<String, BuildError>)
    ensures
        match r {
            Ok(name) => spec_string_from_config(config@, "theme_name"@) == Some(name@),
            Err(e) => spec_string_from_config(config@, "theme_name"@) is None && e
                is MissingThemeName,
        },
{
    match string_from_config("theme_name", config) {
        Some(name) => Ok(name),
        None => Err(BuildError::MissingThemeName),
    }
}

/// Fills unbound names from the theme's table: a name the site's table binds
/// keeps its value, and a name only the theme binds gets the theme's value.
pub fn merge_table_under(
    table: Vec<(String, String)>,
    fallback: &Vec<(String, String)>,
) -> (r: Vec<(String, String)>)
    ensures
        forall|k: Seq<char>|
            #![trigger assoc_lookup(r@, k)]
            assoc_lookup(r@, k) == (if assoc_has(table@, k) {
                assoc_lookup(table@, k)
            } else {
                assoc_lookup(fallback@, k)
            }),
{
    let mut out = table;
    let ghost base = out@;
    let n = fallback.len();
    let mut i: usize = 0;
    while i < n
        invariant
            i <= n,
            n == fallback@.len(),
            forall|k: Seq<char>|
                #![trigger assoc_lookup(out@, k)]
                assoc_lookup(out@, k) == (if assoc_has(base, k) {
                    assoc_lookup(base, k)
                } else {
                    assoc_lookup(fallback@.take(i as int), k)
                }),
        decreases n - i,
    {
        proof {
            assert(fallback@.take(i + 1) =~= fallback@.take(i as int).push(fallback@[i as int]));
            assert forall|k: Seq<char>| #[trigger]
                assoc_lookup(fallback@.take(i + 1), k) == (if assoc_has(
                fallback@.take(i as int),
                k,
            ) {
                assoc_lookup(fallback@.take(i as int), k)
            } else if fallback@[i as int].0@ == k {
                Some(fallback@[i as int].1.deep_view())
            } else {
                None
            }) by {
                lemma_assoc_lookup_push(fallback@.take(i as int), fallback@[i as int], k);
            }
        }
        if !assoc_has_key(&out, fallback[i].0.as_str()) {
            let p = (fallback[i].0.clone(), fallback[i].1.clone());
            let ghost mid = out@;
            proof {
                assert forall|k: Seq<char>| #[trigger] assoc_lookup(mid.push(p), k) == (if assoc_has(
                    mid,
                    k,
                ) {
                    assoc_lookup(mid, k)
                } else if p.0@ == k {
                    Some(p.1.deep_view())
                } else {
                    None
                }) by {
                    lemma_assoc_lookup_push(mid, p, k);
                }
            }
            out.push(p);
        }
        i += 1;
    }
    proof {
        assert(fallback@.take(n as int) =~= fallback@);
    }
    out
}

/// Fills unbound names from the theme's table of paths, as
/// [`merge_table_under`] does for string values.
pub fn merge_path_table_under(
    table: Vec<(String, Vec<String>)>,
    fallback: &Vec<(String, Vec<String>)>,
) -> (r: Vec<(String, Vec<String>)>)
    ensures
        forall|k: Seq<char>|
            #![trigger assoc_lookup(r@, k)]
            assoc_lookup(r@, k) == (if assoc_has(table@, k) {
                assoc_lookup(table@, k)
            } else {
                assoc_lookup(fallback@, k)
            }),
{
    let mut out = table;
    let ghost base = out@;
    let n = fallback.len();
    let mut i: usize = 0;
    while i < n
        invariant
            i <= n,
            n == fallback@.len(),
            forall|k: Seq<char>|
                #![trigger assoc_lookup(out@, k)]
                assoc_lookup(out@, k) == (if assoc_has(base, k) {
                    assoc_lookup(base, k)
                } else {
                    assoc_lookup(fallback@.take(i as int), k)
                }),
        decreases n - i,
    {
        proof {
            assert(fallback@.take(i + 1) =~= fallback@.take(i as int).push(fallback@[i as int]));
            assert forall|k: Seq<char>| #[trigger]
                assoc_lookup(fallback@.take(i + 1), k) == (if assoc_has(
                fallback@.take(i as int),
                k,
            ) {
                assoc_lookup(fallback@.take(i as int), k)
            } else if fallback@[i as int].0@ == k {
                Some(fallback@[i as int].1.deep_view())
            } else {
                None
            }) by {
                lemma_assoc_lookup_push(fallback@.take(i as int), fallback@[i as int], k);
            }
        }
        if !assoc_has_key(&out, fallback[i].0.as_str()) {
            let p = (fallback[i].0.clone(), crate::paths::path_dup(&fallback[i].1));
            let ghost mid = out@;
            proof {
                assert forall|k: Seq<char>| #[trigger] assoc_lookup(mid.push(p), k) == (
                if assoc_has(mid, k) {
                    assoc_lookup(mid, k)
                } else if p.0@ == k {
                    Some(p.1.deep_view())
                } else {
                    None
                }) by {
                    lemma_assoc_lookup_push(mid, p, k);
                }
            }
            out.push(p);
        }
        i += 1;
    }
    proof {
        assert(fallback@.take(n as int) =~= fallback@);
    }
    out
}

/// The entries of a mapping shape whose values are strings, in order.
pub open spec fn text_entries_of(m: Seq<(Seq<char>, FmView)>) -> Seq<(Seq<char>, Seq<char>)>
    decreases m.len(),
{
    if m.len() == 0 {
        Seq::empty()
    } else {
        text_entries_of(m.drop_last()) + (if m.last().1 is Text {
            seq![(m.last().0, m.last().1->Text_0)]
        } else {
            Seq::empty()
        })
    }
}

/// The string-valued entries of a mapping bound at `key`, as a table.
fn table_from_config(key: &str, config: &Vec<(String, FmValue)>) -> (r: Vec<(String, String)>)
    ensures
        ({
            let bound = assoc_lookup(config@, key@);
            match bound {
                Some(FmView::Dict(m)) => r.deep_view() == text_entries_of(m),
                _ => r@.len() == 0,
            }
        }),
{
    let entries = match assoc_get(config, key) {
        Some(v) => match v.as_dict() {
            Some(m) => m,
            None => {
                let empty: Vec<(String, String)> = Vec::new();
                return empty;
            },
        },
        None => {
            let empty: Vec<(String, String)> = Vec::new();
            return empty;
        },
    };
    let ghost mv = crate::value::fm_dict_view(entries@);
    proof {
        crate::value::lemma_fm_dict_view_len(entries@);
    }
    let n = entries.len();
    let mut out: Vec<(String, String)> = Vec::new();
    let mut i: usize = 0;
    while i < n
        invariant
            i <= n,
            n == entries@.len(),
            mv == crate::value::fm_dict_view(entries@),
            mv.len() == n,
            out.deep_view() == text_entries_of(mv.take(i as int)),
        decreases n - i,
    {
        proof {
            assert(mv.take(i + 1).drop_last() =~= mv.take(i as int));
            assert(mv.take(i + 1).last() == mv[i as int]);
            crate::value::lemma_fm_dict_view_index(entries@, i as int);
        }
        let ghost before = out.deep_view();
        match entries[i].1.as_text() {
            Some(s) => {
                out.push((entries[i].0.clone(), s.clone()));
                proof {
                    assert(out.deep_view() =~= before.push((entries@[i as int].0@, s@)));
                    assert(out.deep_view() =~= text_entries_of(mv.take(i + 1)));
                }
            },
            None => {
                proof {
                    assert(out.deep_view() =~= text_entries_of(mv.take(i + 1)));
                }
            },
        }
        i += 1;
    }
    proof {
        assert(mv.take(n as int) =~= mv);
    }
    out
}

/// The string elements of the sequence bound at `key`, in order.
fn strings_from_config(key: &str, config: &Vec<(String, FmValue)>) -> (r: Vec<String>)
    ensures
        ({
            let bound = assoc_lookup(config@, key@);
            match bound {
                Some(FmView::List(xs)) => r.deep_view() == texts_of(xs),
                _ => r@.len() == 0,
            }
        }),
{
    let xs = match assoc_get(config, key) {
        Some(v) => match v.as_list() {
            Some(xs) => xs,
            None => {
                let empty: Vec<String> = Vec::new();
                return empty;
            },
        },
        None => {
            let empty: Vec<String> = Vec::new();
            return empty;
        },
    };
    let ghost xsv = fm_list_view(xs@);
    proof {
        lemma_fm_list_view_len(xs@);
    }
    let n = xs.len();
    let mut out: Vec<String> = Vec::new();
    let mut i: usize = 0;
    while i < n
        invariant
            i <= n,
            n == xs@.len(),
            xsv == fm_list_view(xs@),
            xsv.len() == n,
            out.deep_view() == texts_of(xsv.take(i as int)),
        decreases n - i,
    {
        proof {
            assert(xsv.take(i + 1).drop_last() =~= xsv.take(i as int));
            assert(xsv.take(i + 1).last() == xsv[i as int]);
            lemma_fm_list_view_index(xs@, i as int);
        }
        let ghost before = out.deep_view();
        match xs[i].as_text() {
            Some(s) => {
                out.push(s.clone());
                proof {
                    assert(out.deep_view() =~= before.push(s@));
                    assert(out.deep_view() =~= texts_of(xsv.take(i + 1)));
                }
            },
            None => {
                proof {
                    assert(out.deep_view() =~= texts_of(xsv.take(i + 1)));
                }
            },
        }
        i += 1;
    }
    proof {
        assert(xsv.take(n as int) =~= xsv);
    }
    out
}

/// What the engine reads out of the configuration: the page-extension set,
/// the per-extension converter choice, the per-extension output extension,
/// and the taxonomy names.
#[derive(Debug)]
pub struct ImportantConfig {
    /// The extensions whose files are pages (`convert_ext`).
    pub convert_ext: Vec<String>,
    /// The converter chosen per source extension (`converter_choice`).
    pub converter_choice: Vec<(String, String)>,
    /// The output extension per source extension (`convert_to_ext`).
    pub convert_to_ext: Vec<(String, String)>,
    /// The taxonomy names (`taxonomies`).
    pub taxonomies: Vec<String>,
}

/// Reads the engine's settings out of the configuration: the string
/// elements of `convert_ext` and `taxonomies`, and the string-valued
/// entries of `converter_choice` and `convert_to_ext`.
pub fn extract_important_config(config: &Vec<(String, FmValue)>) -> (r: ImportantConfig)
    ensures
        (match assoc_lookup(config@, "convert_ext"@) {
            Some(FmView::List(xs)) => r.convert_ext.deep_view() == texts_of(xs),
            _ => r.convert_ext@.len() == 0,
        }),
        (match assoc_lookup(config@, "converter_choice"@) {
            Some(FmView::Dict(m)) => r.converter_choice.deep_view() == text_entries_of(m),
            _ => r.converter_choice@.len() == 0,
        }),
        (match assoc_lookup(config@, "convert_to_ext"@) {
            Some(FmView::Dict(m)) => r.convert_to_ext.deep_view() == text_entries_of(m),
            _ => r.convert_to_ext@.len() == 0,
        }),
        (match assoc_lookup(config@, "taxonomies"@) {
            Some(FmView::List(xs)) => r.taxonomies.deep_view() == texts_of(xs),
            _ => r.taxonomies@.len() == 0,
        }),
{
    let convert_ext = strings_from_config("convert_ext", config);
    let converter_choice = table_from_config("converter_choice", config);
    let convert_to_ext = table_from_config("convert_to_ext", config);
    let taxonomies = strings_from_config("taxonomies", config);
    ImportantConfig { convert_ext, converter_choice, convert_to_ext, taxonomies }
}

} // verus!
