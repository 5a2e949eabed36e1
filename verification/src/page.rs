//! Pages: renderable content units.
//!
//! A page carries its front matter, its site-relative URL, its source and
//! destination paths, its body, its resolved date and its identity.  Pages
//! live in an arena owned by the site; the date-ordered sibling links `next`
//! and `last` are indices into that arena.

use vstd::prelude::*;
use vstd::string::*;
use crate::value::{
    FmValue, FmView, assoc_lookup, assoc_has, assoc_get, assoc_set, assoc_set_default, dict_dup,
    fm_list_view, lemma_fm_list_view_index, lemma_fm_list_view_len,
};
use crate::dates::{rfc3339_timestamp_of, resolve_date_string};
use crate::ids::{generated_page_id, page_id_of_url};
use crate::paths::{join_view, join_segments};

verus! {

broadcast use vstd::string::group_string_axioms;

/// A renderable content unit.
#[derive(Debug)]
pub struct Page {
    /// The page's merged front matter.
    pub front_matter: Vec<(String, FmValue)>,
    /// The site-relative URL of the page's output.
    pub url: String,
    /// The source path, as segments from the site root.
    pub source_path: Vec<String>,
    /// The destination path, as segments from the output root; the last
    /// segment is the output file name.
    pub dest_path: Vec<String>,
    /// The output extension.
    pub to_ext: Option<String>,
    /// The page's body, after the front-matter block.
    pub body: String,
    /// The source file's modification time.
    pub source_timestamp: i64,
    /// The page's date, in seconds since the Unix epoch.
    pub date: i64,
    /// The page's date as declared, or the clock's rendering of now.
    pub date_repr: String,
    /// The page's identity, declared or generated.
    pub page_id: String,
    /// The next (newer) sibling, as an arena index.
    pub next: Option<usize>,
    /// The previous (older) sibling, as an arena index.
    pub last: Option<usize>,
}

/// The id a page declares, if its front matter binds `page_id` to a string.
pub open spec fn spec_declared_id(fm: Seq<(String, FmValue)>) -> Option<Seq<char>> {
    match assoc_lookup(fm, "page_id"@) {
        Some(FmView::Text(s)) => Some(s),
        _ => None,
    }
}

/// The id a page gets: its declared id, or the generated id of its URL.
pub open spec fn spec_page_id(fm: Seq<(String, FmValue)>, url: Seq<char>) -> Seq<char> {
    match spec_declared_id(fm) {
        Some(s) => s,
        None => generated_page_id(url),
    }
}

/// The pagination a page declares: the front matter must bind `paginate` to
/// a string expression and `paginate_batch` to a non-negative integer.
pub open spec fn spec_paginate_info(fm: Seq<(String, FmValue)>) -> Option<(Seq<char>, int)> {
    match (assoc_lookup(fm, "paginate"@), assoc_lookup(fm, "paginate_batch"@)) {
        (Some(FmView::Text(e)), Some(FmView::Int(n))) => if 0 <= n {
            Some((e, n as int))
        } else {
            None
        },
        _ => None,
    }
}

/// The string elements of a sequence of value shapes, in order.
pub open spec fn texts_of(xs: Seq<FmView>) -> Seq<Seq<char>>
    decreases xs.len(),
{
    if xs.len() == 0 {
        Seq::empty()
    } else {
        texts_of(xs.drop_last()) + (if xs.last() is Text {
            seq![xs.last()->Text_0]
        } else {
            Seq::empty()
        })
    }
}

/// The kinds a page belongs to under one taxonomy: the string elements of
/// the sequence its front matter binds the taxonomy name to.
pub open spec fn spec_kinds_of(fm: Seq<(String, FmValue)>, taxo: Seq<char>) -> Seq<Seq<char>> {
    match assoc_lookup(fm, taxo) {
        Some(FmView::List(xs)) => texts_of(xs),
        _ => Seq::empty(),
    }
}

/// The reserved configuration keys are pairwise distinct.
proof fn lemma_reserved_keys_distinct()
    ensures
        "url"@ != "date"@,
        "url"@ != "page_id"@,
        "url"@ != "next"@,
        "url"@ != "last"@,
        "url"@ != "path"@,
        "date"@ != "page_id"@,
        "date"@ != "next"@,
        "date"@ != "last"@,
        "date"@ != "path"@,
        "page_id"@ != "next"@,
        "page_id"@ != "last"@,
        "page_id"@ != "path"@,
        "next"@ != "last"@,
        "next"@ != "path"@,
        "last"@ != "path"@,
{
    reveal_strlit("url");
    reveal_strlit("date");
    reveal_strlit("page_id");
    reveal_strlit("next");
    reveal_strlit("last");
    reveal_strlit("path");
    assert("url"@.len() == 3);
    assert("date"@.len() == 4);
    assert("page_id"@.len() == 7);
    assert("next"@.len() == 4);
    assert("last"@.len() == 4);
    assert("path"@.len() == 4);
    assert("date"@[0] == 'd');
    assert("next"@[0] == 'n');
    assert("last"@[0] == 'l');
    assert("path"@[0] == 'p');
}

impl Page {
    /// Builds a page from its merged front matter.  The date falls through
    /// RFC 3339, a local date-time and a bare date to the clock value `now`;
    /// the id is the declared `page_id` or the generated id of the URL.
    pub fn new(
        front_matter: Vec<(String, FmValue)>,
        url: String,
        source_path: Vec<String>,
        dest_path: Vec<String>,
        to_ext: Option<String>,
        body: String,
        source_timestamp: i64,
        now: i64,
        now_repr: String,
    ) -> (r: Page)
        ensures
            r.front_matter == front_matter,
            r.url == url,
            r.source_path == source_path,
            r.dest_path == dest_path,
            r.to_ext == to_ext,
            r.body == body,
            r.source_timestamp == source_timestamp,
            r.next is None,
            r.last is None,
            r.page_id@ == spec_page_id(front_matter@, url@),
            (match assoc_lookup(front_matter@, "date"@) {
                Some(FmView::Text(s)) => r.date_repr@ == s && (rfc3339_timestamp_of(s) is Some
                    ==> r.date == rfc3339_timestamp_of(s)->0),
                _ => r.date == now && r.date_repr == now_repr,
            }),
    {
        let (date, date_repr): (i64, String) = match assoc_get(&front_matter, "date") {
            Some(v) => match v.as_text() {
                Some(s) => {
                    let repr = s.clone();
                    (resolve_date_string(s.as_str(), now), repr)
                },
                None => (now, now_repr),
            },
            None => (now, now_repr),
        };
        let page_id: String = match assoc_get(&front_matter, "page_id") {
            Some(v) => match v.as_text() {
                Some(s) => s.clone(),
                None => page_id_of_url(url.as_str()),
            },
            None => page_id_of_url(url.as_str()),
        };
        Page {
            front_matter,
            url,
            source_path,
            dest_path,
            to_ext,
            body,
            source_timestamp,
            date,
            date_repr,
            page_id,
            next: None,
            last: None,
        }
    }

    /// The page's merged front matter.
    pub fn get_front_matter(&self) -> (r: &Vec<(String, FmValue)>)
        ensures
            r == &self.front_matter,
    {
        &self.front_matter
    }

    /// The page's identity.
    pub fn get_page_id(&self) -> (r: &String)
        ensures
            r == &self.page_id,
    {
        &self.page_id
    }

    /// Points the page at its next (newer) sibling.
    pub fn set_next(&mut self, next: Option<usize>)
        ensures
            *final(self) == (Page { next, ..*old(self) }),
    {
        self.next = next;
    }

    /// Points the page at its previous (older) sibling.
    pub fn set_last(&mut self, last: Option<usize>)
        ensures
            *final(self) == (Page { last, ..*old(self) }),
    {
        self.last = last;
    }

    /// The next (newer) sibling, as an arena index.
    pub fn next(&self) -> (r: Option<usize>)
        ensures
            r == self.next,
    {
        self.next
    }

    /// The previous (older) sibling, as an arena index.
    pub fn last(&self) -> (r: Option<usize>)
        ensures
            r == self.last,
    {
        self.last
    }

    /// The page's date, in seconds since the Unix epoch.
    pub fn date(&self) -> (r: i64)
        ensures
            r == self.date,
    {
        self.date
    }

    /// The pagination the page declares, if any: the dotted-path expression
    /// and the batch size.
    pub fn paginate_info(&self) -> (r: Option<(String, usize)>)
        ensures
            match r {
                Some((e, b)) => {
                    &&& spec_paginate_info(self.front_matter@) matches Some(info)
                    &&& e@ == info.0
                    &&& b as int == info.1
                },
                None => spec_paginate_info(self.front_matter@) is None || (
                spec_paginate_info(self.front_matter@) matches Some(info) && info.1 > usize::MAX),
            },
    {
        let exp = match assoc_get(&self.front_matter, "paginate") {
            Some(v) => match v.as_text() {
                Some(s) => Some(s.clone()),
                None => None,
            },
            None => None,
        };
        let num = match assoc_get(&self.front_matter, "paginate_batch") {
            Some(v) => v.as_int(),
            None => None,
        };
        match (exp, num) {
            (Some(e), Some(n)) => {
                if n >= 0 {
                    let m = n as u64;
                    if m <= usize::MAX as u64 {
                        Some((e, m as usize))
                    } else {
                        None
                    }
                } else {
                    None
                }
            },
            _ => None,
        }
    }

    /// The kinds the page belongs to under one taxonomy.
    pub fn belongs_to_kind(&self, taxo: &str) -> (r: Vec<String>)
        ensures
            r.deep_view() == spec_kinds_of(self.front_matter@, taxo@),
    {
        let xs = match assoc_get(&self.front_matter, taxo) {
            Some(v) => match v.as_list() {
                Some(xs) => xs,
                None => {
                    let empty: Vec<String> = Vec::new();
                    proof {
                        assert(empty.deep_view() =~= spec_kinds_of(self.front_matter@, taxo@));
                    }
                    return empty;
                },
            },
            None => {
                let empty: Vec<String> = Vec::new();
                proof {
                    assert(empty.deep_view() =~= spec_kinds_of(self.front_matter@, taxo@));
                }
                return empty;
            },
        };
        let ghost xsv = fm_list_view(xs@);
        proof {
            lemma_fm_list_view_len(xs@);
        }
        let n = xs.len();
        let mut out: Vec<String> = Vec::new();
        let mut i: usize = 0;
        while i < n
            invariant
                i <= n,
                n == xs@.len(),
                xsv == fm_list_view(xs@),
                xsv.len() == n,
                out.deep_view() == texts_of(xsv.take(i as int)),
            decreases n - i,
        {
            proof {
                assert(xsv.take(i + 1).drop_last() =~= xsv.take(i as int));
                assert(xsv.take(i + 1).last() == xsv[i as int]);
                lemma_fm_list_view_index(xs@, i as int);
            }
            let ghost before = out.deep_view();
            match xs[i].as_text() {
                Some(s) => {
                    out.push(s.clone());
                    proof {
                        assert(out.deep_view() =~= before.push(s@));
                        assert(out.deep_view() =~= texts_of(xsv.take(i + 1)));
                    }
                },
                None => {
                    proof {
                        assert(out.deep_view() =~= texts_of(xsv.take(i + 1)));
                    }
                },
            }
            i += 1;
        }
        proof {
            lemma_fm_list_view_len(xs@);
            assert(xsv.take(n as int) =~= xsv);
        }
        out
    }

    /// The page's configuration object, handed to templates as `page`: the
    /// front matter, with `url`, `date`, `page_id` and the sibling ids
    /// filled in where the front matter does not bind them, and `path` bound
    /// to the source path.
    pub fn get_page_config(&self, next_id: Option<&String>, last_id: Option<&String>) -> (r: Vec<
        (String, FmValue),
    >)
        ensures
            ({
                let fm = self.front_matter@;
                &&& assoc_lookup(r@, "path"@) == Some(
                    FmView::Text(join_view(self.source_path.deep_view(), '/')),
                )
                &&& assoc_lookup(r@, "url"@) == (if assoc_has(fm, "url"@) {
                    assoc_lookup(fm, "url"@)
                } else {
                    Some(FmView::Text(self.url@))
                })
                &&& assoc_lookup(r@, "date"@) == (if assoc_has(fm, "date"@) {
                    assoc_lookup(fm, "date"@)
                } else {
                    Some(FmView::Text(self.date_repr@))
                })
                &&& assoc_lookup(r@, "page_id"@) == (if assoc_has(fm, "page_id"@) {
                    assoc_lookup(fm, "page_id"@)
                } else {
                    Some(FmView::Text(self.page_id@))
                })
                &&& assoc_lookup(r@, "next"@) == (if assoc_has(fm, "next"@) {
                    assoc_lookup(fm, "next"@)
                } else {
                    match next_id {
                        Some(id) => Some(FmView::Text(id@)),
                        None => None,
                    }
                })
                &&& assoc_lookup(r@, "last"@) == (if assoc_has(fm, "last"@) {
                    assoc_lookup(fm, "last"@)
                } else {
                    match last_id {
                        Some(id) => Some(FmView::Text(id@)),
                        None => None,
                    }
                })
                &&& forall|k: Seq<char>|
                    k != "path"@ && k != "url"@ && k != "date"@ && k != "page_id"@ && k != "next"@
                        && k != "last"@ ==> assoc_lookup(r@, k) == assoc_lookup(fm, k)
            }),
    {
        proof {
            lemma_reserved_keys_distinct();
        }
        let mut config = dict_dup(&self.front_matter);
        assoc_set_default(&mut config, "url".to_owned(), FmValue::Text(self.url.clone()));
        assoc_set_default(&mut config, "date".to_owned(), FmValue::Text(self.date_repr.clone()));
        assoc_set_default(&mut config, "page_id".to_owned(), FmValue::Text(self.page_id.clone()));
        match next_id {
            Some(id) => {
                assoc_set_default(&mut config, "next".to_owned(), FmValue::Text(id.clone()));
            },
            None => {},
        }
        match last_id {
            Some(id) => {
                assoc_set_default(&mut config, "last".to_owned(), FmValue::Text(id.clone()));
            },
            None => {},
        }
        let path_str = join_segments(&self.source_path);
        assoc_set(&mut config, "path".to_owned(), FmValue::Text(path_str));
        config
    }
}

} // verus!
