//! Splitting a source file into its front-matter block and its body.
//!
//! A file may begin with a metadata block: after any blank lines, a line of
//! three or more `-` characters opens the block, and the next such line
//! closes it.  Everything after the closing line is the body.  A file whose
//! first non-blank line is not a delimiter has no front-matter block, and
//! that line starts the body.

use vstd::prelude::*;
use vstd::string::*;

verus! {

/// Whether `c` counts as blank space on a line.
pub open spec fn is_space_char(c: char) -> bool {
    c == ' ' || c == '\t' || c == '\r' || c == '\n' || c == '\u{b}' || c == '\u{c}'
}

/// Whether a line holds nothing but blank space.
pub open spec fn spec_blank_line(l: Seq<char>) -> bool {
    forall|i: int| 0 <= i < l.len() ==> is_space_char(#[trigger] l[i])
}

/// The number of `-` characters the line starts with.
pub open spec fn leading_dashes(l: Seq<char>) -> int
    decreases l.len(),
{
    if l.len() == 0 || l[0] != '-' {
        0
    } else {
        1 + leading_dashes(l.skip(1))
    }
}

/// Whether a line delimits a front-matter block: three or more `-`
/// characters followed by nothing but blank space.
pub open spec fn spec_delim_line(l: Seq<char>) -> bool {
    leading_dashes(l) >= 3 && (forall|i: int|
        leading_dashes(l) <= i < l.len() ==> is_space_char(#[trigger] l[i]))
}

/// Where the splitter stands while reading lines.
pub enum SplitState {
    /// Before the first non-blank line.
    Start,
    /// Between the opening and closing delimiter lines.
    InBlock,
    /// After the block, or after a first non-blank line that opened none.
    AfterBlock,
}

/// The splitter's accumulated outcome.
pub struct SplitOutcome {
    /// Where the splitter stands.
    pub state: SplitState,
    /// Whether a front-matter block was opened (or may still open).
    pub has_block: bool,
    /// The lines of the block read so far.
    pub block: Seq<Seq<char>>,
    /// The body lines read so far.
    pub body: Seq<Seq<char>>,
}

/// Before any line is read: no block lines, no body lines, and a block may
/// still open.
pub open spec fn split_init() -> SplitOutcome {
    SplitOutcome { state: SplitState::Start, has_block: true, block: Seq::empty(), body: Seq::empty() }
}

/// Reading one line: blank lines before the block are dropped; the first
/// delimiter opens the block and the next closes it; a non-blank, non-delimiter
/// first line renounces the block and starts the body.
pub open spec fn split_step(acc: SplitOutcome, l: Seq<char>) -> SplitOutcome {
    match acc.state {
        SplitState::Start => {
            if spec_blank_line(l) {
                acc
            } else if spec_delim_line(l) {
                SplitOutcome { state: SplitState::InBlock, ..acc }
            } else {
                SplitOutcome {
                    state: SplitState::AfterBlock,
                    has_block: false,
                    body: acc.body.push(l),
                    ..acc
                }
            }
        },
        SplitState::InBlock => {
            if spec_delim_line(l) {
                SplitOutcome { state: SplitState::AfterBlock, ..acc }
            } else {
                SplitOutcome { block: acc.block.push(l), ..acc }
            }
        },
        SplitState::AfterBlock => SplitOutcome { body: acc.body.push(l), ..acc },
    }
}

/// Reading a sequence of lines, left to right.
pub open spec fn split_fold(acc: SplitOutcome, lines: Seq<Seq<char>>) -> SplitOutcome
    decreases lines.len(),
{
    if lines.len() == 0 {
        acc
    } else {
        split_fold(split_step(acc, lines[0]), lines.skip(1))
    }
}

/// Reading one more line after a prefix reads the prefix first.
pub proof fn lemma_split_fold_snoc(acc: SplitOutcome, lines: Seq<Seq<char>>, l: Seq<char>)
    ensures
        split_fold(acc, lines.push(l)) == split_step(split_fold(acc, lines), l),
    decreases lines.len(),
{
    if lines.len() == 0 {
        assert(lines.push(l)[0] == l);
        assert(lines.push(l).skip(1) =~= Seq::<Seq<char>>::empty());
        assert(split_fold(split_step(acc, l), Seq::<Seq<char>>::empty()) == split_step(acc, l));
    } else {
        assert(lines.push(l).skip(1) =~= lines.skip(1).push(l));
        lemma_split_fold_snoc(split_step(acc, lines[0]), lines.skip(1), l);
    }
}

/// Whether a line holds nothing but blank space.
pub fn is_blank_line(l: &str) -> (r: bool)
    ensures
        r == spec_blank_line(l@),
{
    let n = l.unicode_len();
    let mut i: usize = 0;
    while i < n
        invariant
            i <= n,
            n == l@.len(),
            forall|j: int| 0 <= j < i ==> is_space_char(#[trigger] l@[j]),
        decreases n - i,
    {
        let c = l.get_char(i);
        if !(c == ' ' || c == '\t' || c == '\r' || c == '\n' || c == '\u{b}' || c == '\u{c}') {
            return false;
        }
        i += 1;
    }
    true
}

/// Whether a line delimits a front-matter block.
pub fn is_delim_line(l: &str) -> (r: bool)
    ensures
        r == spec_delim_line(l@),
{
    let n = l.unicode_len();
    let mut i: usize = 0;
    while i < n && l.get_char(i) == '-'
        invariant
            i <= n,
            n == l@.len(),
            forall|j: int| 0 <= j < i ==> l@[j] == '-',
        decreases n - i,
    {
        i += 1;
    }
    proof {
        if i < n {
            lemma_leading_dashes_stops(l@, i as int);
        } else {
            lemma_leading_dashes_all(l@);
        }
        assert(leading_dashes(l@) == i);
    }
    // i is now the number of leading dashes
    if i < 3 {
        return false;
    }
    let mut j: usize = i;
    while j < n
        invariant
            i <= j <= n,
            n == l@.len(),
            leading_dashes(l@) == i,
            i >= 3,
            forall|k: int| i <= k < j ==> is_space_char(#[trigger] l@[k]),
        decreases n - j,
    {
        let c = l.get_char(j);
        if !(c == ' ' || c == '\t' || c == '\r' || c == '\n' || c == '\u{b}' || c == '\u{c}') {
            return false;
        }
        j += 1;
    }
    true
}

/// A prefix of dashes stopped by another character counts just those dashes.
proof fn lemma_leading_dashes_stops(l: Seq<char>, i: int)
    requires
        0 <= i < l.len(),
        forall|j: int| 0 <= j < i ==> l[j] == '-',
        l[i] != '-',
    ensures
        leading_dashes(l) == i,
    decreases i,
{
    if i > 0 {
        lemma_leading_dashes_stops(l.skip(1), i - 1);
    }
}

/// A line of dashes alone counts them all.
proof fn lemma_leading_dashes_all(l: Seq<char>)
    requires
        forall|j: int| 0 <= j < l.len() ==> l[j] == '-',
    ensures
        leading_dashes(l) == l.len(),
    decreases l.len(),
{
    if l.len() > 0 {
        lemma_leading_dashes_all(l.skip(1));
    }
}

/// Splits a file's lines into its front-matter block and its body.  The
/// first component is `Some` exactly when the file did not renounce the
/// block (its first non-blank line, if any, was a delimiter).
pub fn split_front_matter(lines: &Vec<String>) -> (r: (Option<Vec<String>>, Vec<String>))
    ensures
        ({
            let out = split_fold(split_init(), lines.deep_view());
            &&& match r.0 {
                Some(block) => out.has_block && block.deep_view() == out.block,
                None => !out.has_block,
            }
            &&& r.1.deep_view() == out.body
        }),
{
    let mut state = SplitState::Start;
    let mut has_block = true;
    let mut block: Vec<String> = Vec::new();
    let mut body: Vec<String> = Vec::new();
    let n = lines.len();
    let mut i: usize = 0;
    while i < n
        invariant
            i <= n,
            n == lines@.len(),
            ({
                let out = split_fold(split_init(), lines.deep_view().take(i as int));
                &&& state == out.state
                &&& has_block == out.has_block
                &&& block.deep_view() == out.block
                &&& body.deep_view() == out.body
            }),
        decreases n - i,
    {
        let l = &lines[i];
        proof {
            assert(lines.deep_view().take(i as int).push(lines.deep_view()[i as int]) =~= lines.deep_view().take(i + 1));
            lemma_split_fold_snoc(split_init(), lines.deep_view().take(i as int), lines.deep_view()[i as int]);
            assert(lines.deep_view()[i as int] == lines@[i as int]@);
        }
        match state {
            SplitState::Start => {
                if is_blank_line(l.as_str()) {
                    // dropped
                } else if is_delim_line(l.as_str()) {
                    state = SplitState::InBlock;
                } else {
                    state = SplitState::AfterBlock;
                    has_block = false;
                    body.push(l.clone());
                }
            },
            SplitState::InBlock => {
                if is_delim_line(l.as_str()) {
                    state = SplitState::AfterBlock;
                } else {
                    block.push(l.clone());
                }
            },
            SplitState::AfterBlock => {
                body.push(l.clone());
            },
        }
        i += 1;
    }
    proof {
        assert(lines.deep_view().take(n as int) =~= lines.deep_view());
    }
    if has_block {
        (Some(block), body)
    } else {
        (None, body)
    }
}

} // verus!
