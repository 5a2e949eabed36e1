//! Converters: the content-transforming capabilities a build can call on.
//!
//! A converter turns a page body's bytes into output bytes.  The engine
//! itself only chooses which converter a page gets and carries the table of
//! those available; running an external converter is the caller's work.
//! Two converters are always available whatever the configuration: the
//! copy-through converter under `__copy__` and the built-in one under
//! `__internal__` — a discovered program bearing one of the two reserved
//! names cannot shadow them.

use vstd::prelude::*;
use vstd::string::*;
use crate::value::{assoc_lookup, assoc_has, assoc_get, assoc_set};

verus! {

broadcast use vstd::string::group_string_axioms;

/// A content transformer: bytes in, bytes out.
pub trait Converter {
    /// Transforms a body's bytes.
    fn convert(&self, content: Vec<u8>) -> Vec<u8>;
}

/// A converter that runs an external program found at a path.
#[derive(Debug)]
pub struct ExternalConverter {
    /// The converter's name.
    pub name: String,
    /// The program's path, as segments from the site root.
    pub path: Vec<String>,
}

/// The copy-through converter.
#[derive(Debug)]
pub struct DummyConverter {}

impl Converter for DummyConverter {
    /// Hands the content back unchanged.
    fn convert(&self, content: Vec<u8>) -> (r: Vec<u8>)
        ensures
            r@ == content@,
    {
        content
    }
}

/// What a name in the converter table stands for.
#[derive(Debug)]
pub enum ConverterKind {
    /// An external program at a path.
    External(ExternalConverter),
    /// The copy-through converter.
    Copy,
    /// The built-in content converter.
    Internal,
}

impl DeepView for ConverterKind {
    type V = ConverterKind;

    open spec fn deep_view(&self) -> ConverterKind {
        *self
    }
}

/// The first discovered entry bearing `name`, if any.
pub open spec fn spec_find_name(
    converter_list: Seq<(String, Vec<String>)>,
    name: Seq<char>,
) -> Option<int>
    decreases converter_list.len(),
{
    if converter_list.len() == 0 {
        None
    } else if converter_list[0].0@ == name {
        Some(0)
    } else {
        match spec_find_name(converter_list.skip(1), name) {
            Some(i) => Some(i + 1),
            None => None,
        }
    }
}

/// The two reserved converter names.
pub open spec fn spec_reserved_name(name: Seq<char>) -> bool {
    name == "__copy__"@ || name == "__internal__"@
}

/// Builds the converter table from the discovered converter programs: one
/// external converter per discovered name, plus the copy-through converter
/// under `__copy__` and the built-in one under `__internal__`.  The two
/// built-ins win over any discovered program of the same name, so they are
/// available whatever the configuration.
pub fn load_converters(converter_list: Vec<(String, Vec<String>)>) -> (r: Vec<(
    String,
    ConverterKind,
)>)
    ensures
        assoc_lookup(r@, "__copy__"@) == Some(ConverterKind::Copy),
        assoc_lookup(r@, "__internal__"@) == Some(ConverterKind::Internal),
        forall|k: Seq<char>|
            !spec_reserved_name(k) ==> match #[trigger] assoc_lookup(r@, k) {
                Some(v) => {
                    &&& spec_find_name(converter_list@, k) matches Some(i)
                    &&& (v matches ConverterKind::External(c) && c.name@ == k
                    && c.path.deep_view() == converter_list@[spec_find_name(
                        converter_list@,
                        k,
                    )->0].1.deep_view())
                },
                None => spec_find_name(converter_list@, k) is None,
            },
{
    proof {
        lemma_reserved_names_distinct();
    }
    let n = converter_list.len();
    let mut out: Vec<(String, ConverterKind)> = Vec::new();
    let mut i: usize = 0;
    while i < n
        invariant
            i <= n,
            n == converter_list@.len(),
            forall|k: Seq<char>|
                match #[trigger] assoc_lookup(out@, k) {
                    Some(v) => {
                        &&& spec_find_name(converter_list@.take(i as int), k) matches Some(j)
                        &&& (v matches ConverterKind::External(c) && c.name@ == k
                        && c.path.deep_view() == converter_list@[spec_find_name(
                            converter_list@.take(i as int),
                            k,
                        )->0].1.deep_view())
                    },
                    None => spec_find_name(converter_list@.take(i as int), k) is None,
                },
        decreases n - i,
    {
        let name = converter_list[i].0.clone();
        let path = crate::paths::path_dup(&converter_list[i].1);
        let inner_name = converter_list[i].0.clone();
        let entry = (
            name,
            ConverterKind::External(ExternalConverter { name: inner_name, path }),
        );
        proof {
            lemma_find_name_snoc(converter_list@, i as int, entry.0@);
            assert forall|k: Seq<char>| #[trigger]
                assoc_lookup(out@.push(entry), k) == (if assoc_has(out@, k) {
                assoc_lookup(out@, k)
            } else if entry.0@ == k {
                Some(entry.1)
            } else {
                None
            }) by {
                crate::value::lemma_assoc_lookup_push(out@, entry, k);
            }
            assert forall|k: Seq<char>| k != entry.0@ implies spec_find_name(
                converter_list@.take(i + 1),
                k,
            ) == spec_find_name(converter_list@.take(i as int), k) by {
                lemma_find_name_snoc(converter_list@, i as int, k);
            }
        }
        out.push(entry);
        i += 1;
    }
    proof {
        assert(converter_list@.take(n as int) =~= converter_list@);
    }
    assoc_set(&mut out, "__copy__".to_owned(), ConverterKind::Copy);
    assoc_set(&mut out, "__internal__".to_owned(), ConverterKind::Internal);
    out
}

/// Reading one more discovered entry extends the search by that entry.
proof fn lemma_find_name_snoc(s: Seq<(String, Vec<String>)>, i: int, k: Seq<char>)
    requires
        0 <= i < s.len(),
    ensures
        spec_find_name(s.take(i + 1), k) == (match spec_find_name(s.take(i), k) {
            Some(j) => Some(j),
            None => if s[i].0@ == k {
                Some(i)
            } else {
                None
            },
        }),
    decreases i,
{
    if i == 0 {
        assert(s.take(1)[0] == s[0]);
        assert(s.take(1).skip(1) =~= Seq::<(String, Vec<String>)>::empty());
        assert(s.take(0) =~= Seq::<(String, Vec<String>)>::empty());
    } else {
        assert(s.take(i + 1)[0] == s[0]);
        assert(s.take(i)[0] == s[0]);
        assert(s.take(i + 1).skip(1) =~= s.skip(1).take(i));
        assert(s.take(i).skip(1) =~= s.skip(1).take(i - 1));
        assert(s.skip(1)[i - 1] == s[i]);
        lemma_find_name_snoc(s.skip(1), i - 1, k);
    }
}

/// The two reserved names are distinct.
proof fn lemma_reserved_names_distinct()
    ensures
        "__copy__"@ != "__internal__"@,
{
    reveal_strlit("__copy__");
    reveal_strlit("__internal__");
    assert("__copy__"@.len() == 8);
    assert("__internal__"@.len() == 12);
}

/// The converter a page with this source extension gets: the configured
/// choice for the extension, if any.
pub fn choose_converter(
    converter_choice: &Vec<(String, String)>,
    ext: &str,
) -> (r: Option<String>)
    ensures
        match r {
            Some(name) => assoc_lookup(converter_choice@, ext@) == Some(name@),
            None => assoc_lookup(converter_choice@, ext@) is None,
        },
{
    match assoc_get(converter_choice, ext) {
        Some(name) => Some(name.clone()),
        None => None,
    }
}

} // verus!
