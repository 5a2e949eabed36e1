//! Front-matter values and string-keyed association lists.
//!
//! A front-matter document is a list of `(key, value)` pairs whose values are
//! scalars, sequences or nested mappings.  The same association-list shape,
//! generic in the value type, also carries template tables, converter tables
//! and taxonomy indices.  Lookup takes the first entry whose key matches, so
//! a list with distinct keys behaves as a map.  Contracts speak of values
//! through [`FmView`], the mathematical shape of a front-matter value.

use vstd::prelude::*;
use vstd::string::*;

verus! {

broadcast use vstd::std_specs::vec::axiom_vec_decreases_to_view, vstd::std_specs::vec::axiom_vec_index_decreases;

/// A dynamically shaped front-matter value.
#[derive(Debug, PartialEq, Eq)]
pub enum FmValue {
    /// An explicit null.
    Null,
    /// A boolean scalar.
    Bool(bool),
    /// An integer scalar.
    Int(i64),
    /// A string scalar.
    Text(String),
    /// A sequence of values.
    List(Vec<FmValue>),
    /// A nested mapping, as an association list.
    Dict(Vec<(String, FmValue)>),
}

/// The mathematical shape of a front-matter value.
pub enum FmView {
    /// An explicit null.
    Null,
    /// A boolean scalar.
    Bool(bool),
    /// An integer scalar.
    Int(int),
    /// A string scalar.
    Text(Seq<char>),
    /// A sequence of values.
    List(Seq<FmView>),
    /// A nested mapping.
    Dict(Seq<(Seq<char>, FmView)>),
}

/// The shape of a front-matter value.
pub open spec fn fm_view(v: FmValue) -> FmView
    decreases v,
{
    match v {
        FmValue::Null => FmView::Null,
        FmValue::Bool(b) => FmView::Bool(b),
        FmValue::Int(i) => FmView::Int(i as int),
        FmValue::Text(s) => FmView::Text(s@),
        FmValue::List(xs) => FmView::List(fm_list_view(xs@)),
        FmValue::Dict(m) => FmView::Dict(fm_dict_view(m@)),
    }
}

/// The shapes of the elements of a sequence value.
pub open spec fn fm_list_view(xs: Seq<FmValue>) -> Seq<FmView>
    decreases xs,
{
    if xs.len() == 0 {
        Seq::empty()
    } else {
        fm_list_view(xs.drop_last()).push(fm_view(xs.last()))
    }
}

/// The shapes of the entries of a mapping value.
pub open spec fn fm_dict_view(m: Seq<(String, FmValue)>) -> Seq<(Seq<char>, FmView)>
    decreases m,
{
    if m.len() == 0 {
        Seq::empty()
    } else {
        fm_dict_view(m.drop_last()).push((m.last().0@, fm_view(m.last().1)))
    }
}

impl View for FmValue {
    type V = FmView;

    open spec fn view(&self) -> FmView {
        fm_view(*self)
    }
}

impl DeepView for FmValue {
    type V = FmView;

    open spec fn deep_view(&self) -> FmView {
        fm_view(*self)
    }
}

/// A list's shape has one element per value, in order.
pub broadcast proof fn lemma_fm_list_view_len(xs: Seq<FmValue>)
    ensures
        #[trigger] fm_list_view(xs).len() == xs.len(),
    decreases xs,
{
    if xs.len() > 0 {
        lemma_fm_list_view_len(xs.drop_last());
    }
}

/// Each element of a list's shape is the shape of the value at that index.
pub broadcast proof fn lemma_fm_list_view_index(xs: Seq<FmValue>, i: int)
    requires
        0 <= i < xs.len(),
    ensures
        #[trigger] fm_list_view(xs)[i] == xs[i]@,
    decreases xs,
{
    lemma_fm_list_view_len(xs);
    if i < xs.len() - 1 {
        assert(xs.drop_last()[i] == xs[i]);
        lemma_fm_list_view_index(xs.drop_last(), i);
    }
}

/// A mapping's shape has one entry per entry, in order.
pub broadcast proof fn lemma_fm_dict_view_len(m: Seq<(String, FmValue)>)
    ensures
        #[trigger] fm_dict_view(m).len() == m.len(),
    decreases m,
{
    if m.len() > 0 {
        lemma_fm_dict_view_len(m.drop_last());
    }
}

/// Each entry of a mapping's shape carries that entry's key and value shape.
pub broadcast proof fn lemma_fm_dict_view_index(m: Seq<(String, FmValue)>, i: int)
    requires
        0 <= i < m.len(),
    ensures
        #[trigger] fm_dict_view(m)[i] == (m[i].0@, m[i].1@),
    decreases m,
{
    lemma_fm_dict_view_len(m);
    if i < m.len() - 1 {
        assert(m.drop_last()[i] == m[i]);
        lemma_fm_dict_view_index(m.drop_last(), i);
    }
}

/// The value shape bound to `key` in `entries`: the first entry whose key
/// reads as `key`, or `None` if no entry does.
pub open spec fn assoc_lookup<V: DeepView>(entries: Seq<(String, V)>, key: Seq<char>) -> Option<
    V::V,
>
    decreases entries.len(),
{
    if entries.len() == 0 {
        None
    } else if entries[0].0@ == key {
        Some(entries[0].1.deep_view())
    } else {
        assoc_lookup(entries.skip(1), key)
    }
}

/// Whether `entries` binds `key`.
pub open spec fn assoc_has<V: DeepView>(entries: Seq<(String, V)>, key: Seq<char>) -> bool {
    assoc_lookup(entries, key) is Some
}

/// Appending an entry leaves every bound key bound as before, and binds the
/// new entry's key only if it was not bound yet.
pub proof fn lemma_assoc_lookup_push<V: DeepView>(
    entries: Seq<(String, V)>,
    p: (String, V),
    key: Seq<char>,
)
    ensures
        assoc_lookup(entries.push(p), key) == (if assoc_lookup(entries, key) is Some {
            assoc_lookup(entries, key)
        } else if p.0@ == key {
            Some(p.1.deep_view())
        } else {
            None::<V::V>
        }),
    decreases entries.len(),
{
    if entries.len() == 0 {
        assert(entries.push(p)[0] == p);
        assert(entries.push(p).skip(1) =~= Seq::<(String, V)>::empty());
        assert(assoc_lookup(Seq::<(String, V)>::empty(), key) is None);
    } else {
        assert(entries.push(p).skip(1) =~= entries.skip(1).push(p));
        lemma_assoc_lookup_push(entries.skip(1), p, key);
    }
}

/// Replacing the first entry for a key rebinds that key and leaves every
/// other key bound as before.
pub proof fn lemma_assoc_lookup_update<V: DeepView>(
    entries: Seq<(String, V)>,
    i: int,
    p: (String, V),
    key: Seq<char>,
)
    requires
        0 <= i < entries.len(),
        entries[i].0@ == p.0@,
        forall|j: int| 0 <= j < i ==> entries[j].0@ != p.0@,
    ensures
        assoc_lookup(entries.update(i, p), key) == (if p.0@ == key {
            Some(p.1.deep_view())
        } else {
            assoc_lookup(entries, key)
        }),
    decreases entries.len(),
{
    let updated = entries.update(i, p);
    if i == 0 {
        if p.0@ != key {
            assert(updated.skip(1) =~= entries.skip(1));
        }
    } else {
        assert(updated[0] == entries[0]);
        if entries[0].0@ != key {
            assert(updated.skip(1) =~= entries.skip(1).update(i - 1, p));
            lemma_assoc_lookup_update(entries.skip(1), i - 1, p, key);
        }
    }
}

/// Character-by-character string equality.
pub fn str_eq(a: &str, b: &str) -> (r: bool)
    ensures
        r == (a@ == b@),
{
    let a_len = a.unicode_len();
    let b_len = b.unicode_len();
    if a_len != b_len {
        return false;
    }
    let mut i: usize = 0;
    while i < a_len
        invariant
            i <= a_len,
            a_len == a@.len(),
            a_len == b@.len(),
            forall|j: int| 0 <= j < i ==> a@[j] == b@[j],
        decreases a_len - i,
    {
        if a.get_char(i) != b.get_char(i) {
            return false;
        }
        i += 1;
    }
    proof {
        assert(a@ =~= b@);
    }
    true
}

/// A reference to the value bound to `key`, or `None` if the key is unbound.
pub fn assoc_get<'a, V: DeepView>(entries: &'a Vec<(String, V)>, key: &str) -> (r: Option<&'a V>)
    ensures
        match r {
            Some(v) => assoc_lookup(entries@, key@) == Some(v.deep_view()),
            None => assoc_lookup(entries@, key@) is None,
        },
{
    let n = entries.len();
    let mut i: usize = 0;
    while i < n
        invariant
            i <= n,
            n == entries@.len(),
            forall|j: int| 0 <= j < i ==> entries@[j].0@ != key@,
        decreases n - i,
    {
        if str_eq(entries[i].0.as_str(), key) {
            proof {
                lemma_assoc_first_match(entries@, i as int, key@);
            }
            return Some(&entries[i].1);
        }
        i += 1;
    }
    proof {
        lemma_assoc_no_match(entries@, key@);
    }
    None
}

/// Whether `entries` binds `key`.
pub fn assoc_has_key<V: DeepView>(entries: &Vec<(String, V)>, key: &str) -> (r: bool)
    ensures
        r == assoc_has(entries@, key@),
{
    match assoc_get(entries, key) {
        Some(_) => true,
        None => false,
    }
}

/// Lookup lands on the first index whose key matches.
proof fn lemma_assoc_first_match<V: DeepView>(entries: Seq<(String, V)>, i: int, key: Seq<char>)
    requires
        0 <= i < entries.len(),
        entries[i].0@ == key,
        forall|j: int| 0 <= j < i ==> entries[j].0@ != key,
    ensures
        assoc_lookup(entries, key) == Some(entries[i].1.deep_view()),
    decreases i,
{
    if i > 0 {
        lemma_assoc_first_match(entries.skip(1), i - 1, key);
    }
}

/// Lookup fails when no entry's key matches.
proof fn lemma_assoc_no_match<V: DeepView>(entries: Seq<(String, V)>, key: Seq<char>)
    requires
        forall|j: int| 0 <= j < entries.len() ==> entries[j].0@ != key,
    ensures
        assoc_lookup(entries, key) is None,
    decreases entries.len(),
{
    if entries.len() > 0 {
        lemma_assoc_no_match(entries.skip(1), key);
    }
}

/// Binds `key` to `value`: replaces the value of the first entry for `key`,
/// or appends a new entry if the key is unbound.  Every other key stays bound
/// as it was.
pub fn assoc_set<V: DeepView>(entries: &mut Vec<(String, V)>, key: String, value: V)
    ensures
        assoc_lookup(final(entries)@, key@) == Some(value.deep_view()),
        forall|k: Seq<char>| k != key@ ==> assoc_lookup(final(entries)@, k) == assoc_lookup(
            old(entries)@,
            k,
        ),
{
    let n = entries.len();
    let mut i: usize = 0;
    while i < n
        invariant
            i <= n,
            n == entries@.len(),
            entries@ == old(entries)@,
            forall|j: int| 0 <= j < i ==> entries@[j].0@ != key@,
        decreases n - i,
    {
        if str_eq(entries[i].0.as_str(), key.as_str()) {
            let p = (key, value);
            proof {
                lemma_assoc_lookup_update(entries@, i as int, p, p.0@);
                assert forall|k: Seq<char>| k != p.0@ implies assoc_lookup(
                    entries@.update(i as int, p),
                    k,
                ) == assoc_lookup(entries@, k) by {
                    lemma_assoc_lookup_update(entries@, i as int, p, k);
                }
            }
            entries[i] = p;
            return ;
        }
        i += 1;
    }
    let p = (key, value);
    proof {
        lemma_assoc_lookup_push(entries@, p, p.0@);
        lemma_assoc_no_match(entries@, p.0@);
        assert forall|k: Seq<char>| k != p.0@ implies assoc_lookup(entries@.push(p), k)
            == assoc_lookup(entries@, k) by {
            lemma_assoc_lookup_push(entries@, p, k);
        }
    }
    entries.push(p);
}

/// Binds `key` to `value` only if `key` is unbound; a bound key keeps its
/// value, and every other key stays bound as it was.
pub fn assoc_set_default<V: DeepView>(entries: &mut Vec<(String, V)>, key: String, value: V)
    ensures
        assoc_lookup(final(entries)@, key@) == (if assoc_has(old(entries)@, key@) {
            assoc_lookup(old(entries)@, key@)
        } else {
            Some(value.deep_view())
        }),
        forall|k: Seq<char>| k != key@ ==> assoc_lookup(final(entries)@, k) == assoc_lookup(
            old(entries)@,
            k,
        ),
{
    if assoc_has_key(entries, key.as_str()) {
        return ;
    }
    let p = (key, value);
    proof {
        lemma_assoc_lookup_push(entries@, p, p.0@);
        assert forall|k: Seq<char>| k != p.0@ implies assoc_lookup(entries@.push(p), k)
            == assoc_lookup(entries@, k) by {
            lemma_assoc_lookup_push(entries@, p, k);
        }
    }
    entries.push(p);
}

/// Dropping an entry for another key leaves a key's binding as it was.
proof fn lemma_assoc_lookup_remove<V: DeepView>(s: Seq<(String, V)>, i: int, k: Seq<char>)
    requires
        0 <= i < s.len(),
        s[i].0@ != k,
    ensures
        assoc_lookup(s.remove(i), k) == assoc_lookup(s, k),
    decreases i,
{
    if i == 0 {
        assert(s.remove(0) =~= s.skip(1));
    } else {
        assert(s.remove(i)[0] == s[0]);
        if s[0].0@ != k {
            assert(s.remove(i).skip(1) =~= s.skip(1).remove(i - 1));
            lemma_assoc_lookup_remove(s.skip(1), i - 1, k);
        }
    }
}

/// Unbinds `key`: every entry for it is dropped, and every other key stays
/// bound as it was.
pub fn assoc_remove<V: DeepView>(entries: &mut Vec<(String, V)>, key: &str)
    ensures
        assoc_lookup(final(entries)@, key@) is None,
        forall|k: Seq<char>|
            k != key@ ==> assoc_lookup(final(entries)@, k) == assoc_lookup(old(entries)@, k),
{
    let mut i: usize = 0;
    while i < entries.len()
        invariant
            i <= entries@.len(),
            forall|m: int| 0 <= m < i ==> #[trigger] entries@[m].0@ != key@,
            forall|k: Seq<char>|
                k != key@ ==> #[trigger] assoc_lookup(entries@, k) == assoc_lookup(
                    old(entries)@,
                    k,
                ),
        decreases entries@.len() - i,
    {
        if str_eq(entries[i].0.as_str(), key) {
            let ghost before = entries@;
            let _ = entries.remove(i);
            proof {
                assert forall|k: Seq<char>| k != key@ implies #[trigger] assoc_lookup(
                    entries@,
                    k,
                ) == assoc_lookup(before, k) by {
                    lemma_assoc_lookup_remove(before, i as int, k);
                }
            }
        } else {
            i += 1;
        }
    }
    proof {
        lemma_assoc_no_match(entries@, key@);
    }
}

impl FmValue {
    /// The string content of a string scalar.
    pub fn as_text(&self) -> (r: Option<&String>)
        ensures
            match self {
                FmValue::Text(s) => r == Some(s),
                _ => r is None,
            },
    {
        match self {
            FmValue::Text(s) => Some(s),
            _ => None,
        }
    }

    /// The integer content of an integer scalar.
    pub fn as_int(&self) -> (r: Option<i64>)
        ensures
            match self {
                FmValue::Int(i) => r == Some(*i),
                _ => r is None,
            },
    {
        match self {
            FmValue::Int(i) => Some(*i),
            _ => None,
        }
    }

    /// The elements of a sequence value.
    pub fn as_list(&self) -> (r: Option<&Vec<FmValue>>)
        ensures
            match self {
                FmValue::List(xs) => r == Some(xs),
                _ => r is None,
            },
    {
        match self {
            FmValue::List(xs) => Some(xs),
            _ => None,
        }
    }

    /// The entries of a nested mapping.
    pub fn as_dict(&self) -> (r: Option<&Vec<(String, FmValue)>>)
        ensures
            match self {
                FmValue::Dict(m) => r == Some(m),
                _ => r is None,
            },
    {
        match self {
            FmValue::Dict(m) => Some(m),
            _ => None,
        }
    }

    /// A copy of the value, of the same shape.
    pub fn dup(&self) -> (r: FmValue)
        ensures
            r@ == self@,
        decreases *self,
    {
        match self {
            FmValue::Null => FmValue::Null,
            FmValue::Bool(b) => FmValue::Bool(*b),
            FmValue::Int(i) => FmValue::Int(*i),
            FmValue::Text(s) => FmValue::Text(s.clone()),
            FmValue::List(xs) => {
                let n = xs.len();
                let mut out: Vec<FmValue> = Vec::new();
                let mut i: usize = 0;
                while i < n
                    invariant
                        i <= n,
                        n == xs@.len(),
                        *self is List,
                        xs@ == self->List_0@,
                        out@.len() == i,
                        fm_list_view(out@) =~= fm_list_view(xs@).subrange(0, i as int),
                    decreases n - i,
                {
                    proof {
                        let ghost g = *self;
                        assert(decreases_to!(g => g->List_0));
                        assert(decreases_to!(g->List_0 => g->List_0[i as int]));
                        lemma_fm_list_view_len(xs@);
                    }
                    let x = xs[i].dup();
                    proof {
                        lemma_fm_list_view_snoc(out@, x);
                        lemma_fm_list_view_index(xs@, i as int);
                    }
                    out.push(x);
                    i += 1;
                }
                proof {
                    lemma_fm_list_view_len(xs@);
                    assert(fm_list_view(out@) =~= fm_list_view(xs@));
                }
                FmValue::List(out)
            },
            FmValue::Dict(m) => {
                let n = m.len();
                let mut out: Vec<(String, FmValue)> = Vec::new();
                let mut i: usize = 0;
                while i < n
                    invariant
                        i <= n,
                        n == m@.len(),
                        *self is Dict,
                        m@ == self->Dict_0@,
                        out@.len() == i,
                        fm_dict_view(out@) =~= fm_dict_view(m@).subrange(0, i as int),
                    decreases n - i,
                {
                    proof {
                        let ghost g = *self;
                        assert(decreases_to!(g => g->Dict_0));
                        assert(decreases_to!(g->Dict_0 => g->Dict_0[i as int]));
                        assert(decreases_to!(g->Dict_0[i as int] => g->Dict_0[i as int].1));
                        lemma_fm_dict_view_len(m@);
                    }
                    let k = m[i].0.clone();
                    let v = m[i].1.dup();
                    proof {
                        lemma_fm_dict_view_snoc(out@, (k, v));
                        lemma_fm_dict_view_index(m@, i as int);
                    }
                    out.push((k, v));
                    i += 1;
                }
                proof {
                    lemma_fm_dict_view_len(m@);
                    assert(fm_dict_view(out@) =~= fm_dict_view(m@));
                }
                FmValue::Dict(out)
            },
        }
    }
}

/// Appending a value appends its shape.
pub broadcast proof fn lemma_fm_list_view_snoc(xs: Seq<FmValue>, x: FmValue)
    ensures
        #[trigger] fm_list_view(xs.push(x)) == fm_list_view(xs).push(x@),
{
    assert(xs.push(x).drop_last() =~= xs);
    assert(xs.push(x).last() == x);
}

/// Appending an entry appends its key and value shape.
pub broadcast proof fn lemma_fm_dict_view_snoc(m: Seq<(String, FmValue)>, p: (String, FmValue))
    ensures
        #[trigger] fm_dict_view(m.push(p)) == fm_dict_view(m).push((p.0@, p.1@)),
{
    assert(m.push(p).drop_last() =~= m);
    assert(m.push(p).last() == p);
}

/// A sequence of values viewed deeply is the sequence of their shapes.
pub proof fn lemma_list_deep_view(xs: Vec<FmValue>)
    ensures
        xs.deep_view() == fm_list_view(xs@),
{
    lemma_fm_list_view_len(xs@);
    assert forall|k: int| 0 <= k < xs@.len() implies fm_list_view(xs@)[k]
        == xs.deep_view()[k] by {
        lemma_fm_list_view_index(xs@, k);
    }
    assert(xs.deep_view() =~= fm_list_view(xs@));
}

/// A copy of a list of front-matter values, of the same shape.
pub fn list_dup(xs: &Vec<FmValue>) -> (r: Vec<FmValue>)
    ensures
        r.deep_view() == xs.deep_view(),
        r@.len() == xs@.len(),
{
    let n = xs.len();
    let mut out: Vec<FmValue> = Vec::new();
    let mut i: usize = 0;
    while i < n
        invariant
            i <= n,
            n == xs@.len(),
            out@.len() == i,
            forall|k: int|
                0 <= k < i ==> (#[trigger] out@[k]).deep_view() == xs@[k].deep_view(),
        decreases n - i,
    {
        out.push(xs[i].dup());
        i += 1;
    }
    proof {
        assert(out.deep_view() =~= xs.deep_view());
    }
    out
}

/// The value shape bound to `key` in a mapping shape.
pub open spec fn view_dict_lookup(m: Seq<(Seq<char>, FmView)>, key: Seq<char>) -> Option<FmView>
    decreases m.len(),
{
    if m.len() == 0 {
        None
    } else if m[0].0 == key {
        Some(m[0].1)
    } else {
        view_dict_lookup(m.skip(1), key)
    }
}

/// Lookup in a list of entries is lookup in its shape.
pub proof fn lemma_assoc_lookup_is_view_lookup(m: Seq<(String, FmValue)>, key: Seq<char>)
    ensures
        assoc_lookup(m, key) == view_dict_lookup(fm_dict_view(m), key),
    decreases m.len(),
{
    lemma_fm_dict_view_len(m);
    if m.len() > 0 {
        lemma_fm_dict_view_index(m, 0);
        if m[0].0@ != key {
            assert forall|i: int| 0 <= i < m.len() - 1 implies fm_dict_view(m).skip(1)[i]
                == fm_dict_view(m.skip(1))[i] by {
                lemma_fm_dict_view_index(m, i + 1);
                lemma_fm_dict_view_index(m.skip(1), i);
                assert(m.skip(1)[i] == m[i + 1]);
            }
            lemma_fm_dict_view_len(m.skip(1));
            assert(fm_dict_view(m).skip(1) =~= fm_dict_view(m.skip(1)));
            lemma_assoc_lookup_is_view_lookup(m.skip(1), key);
        }
    }
}

/// Fills unbound keys from a fallback list: a key bound by `entries` keeps
/// its value, and a key bound only by `fallback` gets the fallback value.
pub fn assoc_merge_under(
    entries: Vec<(String, FmValue)>,
    fallback: &Vec<(String, FmValue)>,
) -> (r: Vec<(String, FmValue)>)
    ensures
        forall|k: Seq<char>|
            #![trigger assoc_lookup(r@, k)]
            assoc_lookup(r@, k) == (if assoc_has(entries@, k) {
                assoc_lookup(entries@, k)
            } else {
                assoc_lookup(fallback@, k)
            }),
{
    let mut out = entries;
    let ghost base = out@;
    let n = fallback.len();
    let mut i: usize = 0;
    while i < n
        invariant
            i <= n,
            n == fallback@.len(),
            forall|k: Seq<char>|
                #![trigger assoc_lookup(out@, k)]
                assoc_lookup(out@, k) == (if assoc_has(base, k) {
                    assoc_lookup(base, k)
                } else {
                    assoc_lookup(fallback@.take(i as int), k)
                }),
        decreases n - i,
    {
        proof {
            assert(fallback@.take(i + 1) =~= fallback@.take(i as int).push(fallback@[i as int]));
            assert forall|k: Seq<char>| #[trigger]
                assoc_lookup(fallback@.take(i + 1), k) == (if assoc_has(
                fallback@.take(i as int),
                k,
            ) {
                assoc_lookup(fallback@.take(i as int), k)
            } else if fallback@[i as int].0@ == k {
                Some(fallback@[i as int].1.deep_view())
            } else {
                None
            }) by {
                lemma_assoc_lookup_push(fallback@.take(i as int), fallback@[i as int], k);
            }
        }
        let key = fallback[i].0.clone();
        let val = fallback[i].1.dup();
        proof {
            assert(val@ == fallback@[i as int].1.deep_view());
        }
        assoc_set_default(&mut out, key, val);
        i += 1;
    }
    proof {
        assert(fallback@.take(n as int) =~= fallback@);
    }
    out
}

/// Lists of the same shape bind every key alike.
pub proof fn lemma_dict_view_determines_lookup(
    a: Seq<(String, FmValue)>,
    b: Seq<(String, FmValue)>,
    key: Seq<char>,
)
    requires
        fm_dict_view(a) == fm_dict_view(b),
    ensures
        assoc_lookup(a, key) == assoc_lookup(b, key),
    decreases a.len(),
{
    lemma_fm_dict_view_len(a);
    lemma_fm_dict_view_len(b);
    if a.len() > 0 {
        lemma_fm_dict_view_index(a, 0);
        lemma_fm_dict_view_index(b, 0);
        if a[0].0@ != key {
            assert forall|i: int| 0 <= i < a.len() - 1 implies fm_dict_view(a.skip(1))[i]
                == fm_dict_view(b.skip(1))[i] by {
                lemma_fm_dict_view_index(a.skip(1), i);
                lemma_fm_dict_view_index(b.skip(1), i);
                lemma_fm_dict_view_index(a, i + 1);
                lemma_fm_dict_view_index(b, i + 1);
                assert(a.skip(1)[i] == a[i + 1]);
                assert(b.skip(1)[i] == b[i + 1]);
            }
            lemma_fm_dict_view_len(a.skip(1));
            lemma_fm_dict_view_len(b.skip(1));
            assert(fm_dict_view(a.skip(1)) =~= fm_dict_view(b.skip(1)));
            lemma_dict_view_determines_lookup(a.skip(1), b.skip(1), key);
        }
    }
}

/// A copy of an association list of front-matter values, of the same shape.
pub fn dict_dup(entries: &Vec<(String, FmValue)>) -> (r: Vec<(String, FmValue)>)
    ensures
        fm_dict_view(r@) == fm_dict_view(entries@),
        r@.len() == entries@.len(),
        forall|k: Seq<char>|
            #![trigger assoc_lookup(r@, k)]
            assoc_lookup(r@, k) == assoc_lookup(entries@, k),
{
    let n = entries.len();
    let mut out: Vec<(String, FmValue)> = Vec::new();
    let mut i: usize = 0;
    while i < n
        invariant
            i <= n,
            n == entries@.len(),
            out@.len() == i,
            fm_dict_view(out@) =~= fm_dict_view(entries@).subrange(0, i as int),
        decreases n - i,
    {
        proof {
            lemma_fm_dict_view_len(entries@);
        }
        let k = entries[i].0.clone();
        let v = entries[i].1.dup();
        proof {
            lemma_fm_dict_view_snoc(out@, (k, v));
            lemma_fm_dict_view_index(entries@, i as int);
        }
        out.push((k, v));
        i += 1;
    }
    proof {
        lemma_fm_dict_view_len(entries@);
        assert(fm_dict_view(out@) =~= fm_dict_view(entries@));
        assert forall|k: Seq<char>| #![trigger assoc_lookup(out@, k)] assoc_lookup(out@, k)
            == assoc_lookup(entries@, k) by {
            lemma_dict_view_determines_lookup(out@, entries@, k);
        }
    }
    out
}

} // verus!
