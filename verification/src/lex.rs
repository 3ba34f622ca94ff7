//! Reading source text piece by piece: which parts are code, and which are
//! comments and literals.

use vstd::prelude::*;

use crate::text::matches_at;
#[allow(unused_imports)]
use crate::text::occurs_at;

verus! {

/// Where a literal ends whose contents go on at `i`: behind the next `quote`
/// that no backslash escapes, or with the text if there is none.
pub open spec fn quoted_end(text: Seq<char>, quote: char, i: int) -> int
    decreases text.len() + 1 - i,
{
    if i >= text.len() {
        text.len() as int
    } else if text[i] == '\\' {
        quoted_end(text, quote, i + 2)
    } else if text[i] == quote {
        i + 1
    } else {
        quoted_end(text, quote, i + 1)
    }
}

/// The place of the next line break at or behind `i`, or the end of the text.
pub open spec fn line_end(text: Seq<char>, i: int) -> int
    decreases text.len() - i,
{
    if i >= text.len() {
        text.len() as int
    } else if text[i] == '\n' {
        i
    } else {
        line_end(text, i + 1)
    }
}

/// A line comment begins at `i`.
pub open spec fn comment_at(text: Seq<char>, i: int) -> bool {
    text[i] == '/' && i + 1 < text.len() && text[i + 1] == '/'
}

/// A block comment begins at `i`.
pub open spec fn block_comment_at(text: Seq<char>, i: int) -> bool {
    text[i] == '/' && i + 1 < text.len() && text[i + 1] == '*'
}

/// Where a block comment ends that goes on at `i` with `depth` comments open,
/// or the end of the text if it is not closed. Block comments nest.
pub open spec fn block_end(text: Seq<char>, i: int, depth: nat) -> int
    decreases text.len() - i,
{
    if i >= text.len() {
        text.len() as int
    } else if text[i] == '*' && i + 1 < text.len() && text[i + 1] == '/' {
        if depth <= 1 {
            i + 2
        } else {
            block_end(text, i + 2, (depth - 1) as nat)
        }
    } else if block_comment_at(text, i) {
        block_end(text, i + 2, depth + 1)
    } else {
        block_end(text, i + 1, depth)
    }
}

/// Where a run of `#` that begins at `i` ends.
pub open spec fn hash_end(text: Seq<char>, i: int) -> int
    decreases text.len() - i,
{
    if i < text.len() && text[i] == '#' {
        hash_end(text, i + 1)
    } else {
        i
    }
}

/// A raw string begins at `i`: an `r`, any number of `#`, and a quote.
pub open spec fn raw_at(text: Seq<char>, i: int) -> bool {
    &&& text[i] == 'r'
    &&& hash_end(text, i + 1) < text.len()
    &&& text[hash_end(text, i + 1)] == '"'
}

/// Where a raw string ends whose contents go on at `i`: behind the next quote
/// with `hashes` times `#` behind it, or with the text if there is none.
pub open spec fn raw_end(text: Seq<char>, hashes: int, i: int) -> int
    decreases text.len() - i,
{
    if i >= text.len() {
        text.len() as int
    } else if text[i] == '"' && hash_end(text, i + 1) - (i + 1) >= hashes {
        i + 1 + hashes
    } else {
        raw_end(text, hashes, i + 1)
    }
}

/// Where the piece of Rust source that begins at `i` ends. Comments and
/// literals are one piece each; all else is cut into single characters. A
/// single quote opens a literal only where it is closed behind one character,
/// or where a backslash follows; elsewhere it belongs to a lifetime.
pub open spec fn code_piece_end(text: Seq<char>, i: int) -> int {
    if comment_at(text, i) {
        line_end(text, i)
    } else if block_comment_at(text, i) {
        block_end(text, i + 2, 1)
    } else if text[i] == '"' {
        quoted_end(text, '"', i + 1)
    } else if raw_at(text, i) {
        let quote = hash_end(text, i + 1);
        raw_end(text, quote - (i + 1), quote + 1)
    } else if text[i] == '\'' && i + 1 < text.len() && text[i + 1] == '\\' {
        quoted_end(text, '\'', i + 1)
    } else if text[i] == '\'' && i + 2 < text.len() && text[i + 2] == '\'' {
        i + 3
    } else {
        i + 1
    }
}

/// The first place at or behind `i` where `pat` stands in code: outside
/// comments and literals.
pub open spec fn code_at(text: Seq<char>, pat: Seq<char>, i: int) -> Option<int>
    decreases text.len() - i,
{
    if i >= text.len() {
        None
    } else if occurs_at(text, pat, i) {
        Some(i)
    } else {
        proof {
            lemma_code_piece_end(text, i);
        }
        code_at(text, pat, code_piece_end(text, i))
    }
}

pub proof fn lemma_quoted_end(text: Seq<char>, quote: char, i: int)
    requires
        i <= text.len(),
    ensures
        i <= quoted_end(text, quote, i) <= text.len(),
    decreases text.len() - i,
{
    if i < text.len() {
        if text[i] == '\\' {
            if i + 2 <= text.len() {
                lemma_quoted_end(text, quote, i + 2);
            } else {
                assert(quoted_end(text, quote, i + 2) == text.len());
            }
        } else if text[i] != quote {
            lemma_quoted_end(text, quote, i + 1);
        }
    }
}

pub proof fn lemma_line_end(text: Seq<char>, i: int)
    requires
        i <= text.len(),
    ensures
        i <= line_end(text, i) <= text.len(),
    decreases text.len() - i,
{
    if i < text.len() && text[i] != '\n' {
        lemma_line_end(text, i + 1);
    }
}

pub proof fn lemma_block_end(text: Seq<char>, i: int, depth: nat)
    requires
        i <= text.len(),
    ensures
        i <= block_end(text, i, depth) <= text.len(),
        i < text.len() ==> i < block_end(text, i, depth),
    decreases text.len() - i,
{
    if i < text.len() {
        if text[i] == '*' && i + 1 < text.len() && text[i + 1] == '/' {
            if depth > 1 {
                lemma_block_end(text, i + 2, (depth - 1) as nat);
            }
        } else if block_comment_at(text, i) {
            lemma_block_end(text, i + 2, depth + 1);
        } else {
            lemma_block_end(text, i + 1, depth);
        }
    }
}

pub proof fn lemma_hash_end(text: Seq<char>, i: int)
    requires
        i <= text.len(),
    ensures
        i <= hash_end(text, i) <= text.len(),
        forall|k: int| i <= k < hash_end(text, i) ==> #[trigger] text[k] == '#',
        hash_end(text, i) < text.len() ==> text[hash_end(text, i)] != '#',
    decreases text.len() - i,
{
    if i < text.len() && text[i] == '#' {
        lemma_hash_end(text, i + 1);
    }
}

pub proof fn lemma_raw_end(text: Seq<char>, hashes: int, i: int)
    requires
        i <= text.len(),
        hashes >= 0,
    ensures
        i <= raw_end(text, hashes, i) <= text.len(),
        i < text.len() ==> i < raw_end(text, hashes, i),
    decreases text.len() - i,
{
    if i < text.len() {
        lemma_hash_end(text, i + 1);
        lemma_raw_end(text, hashes, i + 1);
    }
}

/// A piece is never empty.
pub proof fn lemma_code_piece_end(text: Seq<char>, i: int)
    requires
        i < text.len(),
    ensures
        i < code_piece_end(text, i) <= text.len(),
{
    lemma_quoted_end(text, '"', i + 1);
    if comment_at(text, i) {
        lemma_line_end(text, i + 1);
    }
    if block_comment_at(text, i) {
        lemma_block_end(text, i + 2, 1);
    }
    lemma_hash_end(text, i + 1);
    if raw_at(text, i) {
        let quote = hash_end(text, i + 1);
        lemma_raw_end(text, quote - (i + 1), quote + 1);
    }
    lemma_quoted_end(text, '\'', i + 1);
}

/// What is found in code stands there.
pub proof fn lemma_code_at(text: Seq<char>, pat: Seq<char>, i: int)
    ensures
        code_at(text, pat, i) matches Some(k) ==> i <= k < text.len() && occurs_at(text, pat, k),
    decreases text.len() - i,
{
    if i < text.len() && !occurs_at(text, pat, i) {
        lemma_code_piece_end(text, i);
        lemma_code_at(text, pat, code_piece_end(text, i));
    }
}

/// Where the literal ends whose contents go on at `start`.
pub(crate) fn skip_quoted(text: &Vec<char>, quote: char, start: usize) -> (end: usize)
    requires
        start <= text@.len(),
    ensures
        end == quoted_end(text@, quote, start as int),
{
    let n: usize = text.len();
    let mut i: usize = start;
    while i < n
        invariant
            n == text@.len(),
            i <= n,
            quoted_end(text@, quote, start as int) == quoted_end(text@, quote, i as int),
        decreases n - i,
    {
        if text[i] == '\\' {
            if n - i < 2 {
                assert(quoted_end(text@, quote, i + 2) == n);
                return n;
            }
            i += 2;
        } else if text[i] == quote {
            return i + 1;
        } else {
            i += 1;
        }
    }
    n
}

/// The end of the line that `start` stands in.
pub(crate) fn skip_line(text: &Vec<char>, start: usize) -> (end: usize)
    requires
        start <= text@.len(),
    ensures
        end == line_end(text@, start as int),
{
    let n: usize = text.len();
    let mut i: usize = start;
    while i < n && text[i] != '\n'
        invariant
            n == text@.len(),
            i <= n,
            line_end(text@, start as int) == line_end(text@, i as int),
        decreases n - i,
    {
        i += 1;
    }
    i
}

/// The end of the block comment that goes on at `start`.
fn skip_block(text: &Vec<char>, start: usize) -> (end: usize)
    requires
        start <= text@.len(),
    ensures
        end == block_end(text@, start as int, 1),
{
    let n: usize = text.len();
    let mut depth: usize = 1;
    let mut i: usize = start;
    while i < n
        invariant
            n == text@.len(),
            i <= n,
            1 <= depth <= i + 1,
            block_end(text@, start as int, 1) == block_end(text@, i as int, depth as nat),
        decreases n - i,
    {
        if text[i] == '*' && n - i > 1 && text[i + 1] == '/' {
            if depth <= 1 {
                return i + 2;
            }
            depth -= 1;
            i += 2;
        } else if text[i] == '/' && n - i > 1 && text[i + 1] == '*' {
            depth += 1;
            i += 2;
        } else {
            i += 1;
        }
    }
    n
}

/// The end of the run of `#` that begins at `start`.
fn skip_hashes(text: &Vec<char>, start: usize) -> (end: usize)
    requires
        start <= text@.len(),
    ensures
        end == hash_end(text@, start as int),
{
    let n: usize = text.len();
    let mut i: usize = start;
    while i < n && text[i] == '#'
        invariant
            n == text@.len(),
            i <= n,
            hash_end(text@, start as int) == hash_end(text@, i as int),
        decreases n - i,
    {
        i += 1;
    }
    i
}

/// The end of the raw string with so many `#` whose contents go on at `start`.
fn skip_raw(text: &Vec<char>, hashes: usize, start: usize) -> (end: usize)
    requires
        start <= text@.len(),
    ensures
        end == raw_end(text@, hashes as int, start as int),
{
    let n: usize = text.len();
    let mut i: usize = start;
    while i < n
        invariant
            n == text@.len(),
            i <= n,
            raw_end(text@, hashes as int, start as int) == raw_end(
                text@,
                hashes as int,
                i as int,
            ),
        decreases n - i,
    {
        if text[i] == '"' {
            proof {
                lemma_hash_end(text@, i + 1);
            }
            if skip_hashes(text, i + 1) - (i + 1) >= hashes {
                return i + 1 + hashes;
            }
        }
        i += 1;
    }
    n
}

/// The end of the piece of Rust source that begins at `i`.
fn skip_code_piece(text: &Vec<char>, i: usize) -> (end: usize)
    requires
        i < text@.len(),
    ensures
        end == code_piece_end(text@, i as int),
{
    let n: usize = text.len();
    let c: char = text[i];
    if c == '/' && n - i > 1 && text[i + 1] == '/' {
        skip_line(text, i)
    } else if c == '/' && n - i > 1 && text[i + 1] == '*' {
        skip_block(text, i + 2)
    } else if c == '"' {
        skip_quoted(text, '"', i + 1)
    } else if c == 'r' {
        let quote: usize = skip_hashes(text, i + 1);
        proof {
            lemma_hash_end(text@, i + 1);
        }
        if quote < n && text[quote] == '"' {
            skip_raw(text, quote - (i + 1), quote + 1)
        } else {
            i + 1
        }
    } else if c == '\'' && n - i > 1 && text[i + 1] == '\\' {
        skip_quoted(text, '\'', i + 1)
    } else if c == '\'' && n - i > 2 && text[i + 2] == '\'' {
        i + 3
    } else {
        i + 1
    }
}

/// The first place where `pat` stands in code.
pub(crate) fn find_in_code(text: &Vec<char>, pat: &Vec<char>) -> (place: Option<usize>)
    ensures
        match place {
            Some(k) => code_at(text@, pat@, 0) == Some(k as int),
            None => code_at(text@, pat@, 0) is None,
        },
{
    let n: usize = text.len();
    let mut i: usize = 0;
    while i < n
        invariant
            n == text@.len(),
            i <= n,
            code_at(text@, pat@, 0) == code_at(text@, pat@, i as int),
        decreases n - i,
    {
        if pat.len() <= n - i && matches_at(text, pat, i) {
            return Some(i);
        }
        proof {
            lemma_code_piece_end(text@, i as int);
        }
        i = skip_code_piece(text, i);
    }
    None
}

/// `a` from `i` on reads as `b` does from `j` on.
pub open spec fn same_rest(a: Seq<char>, i: int, b: Seq<char>, j: int) -> bool {
    &&& 0 <= i <= a.len()
    &&& 0 <= j <= b.len()
    &&& a.len() - i == b.len() - j
    &&& forall|k: int| i <= k < a.len() ==> #[trigger] a[k] == b[k - i + j]
}

pub proof fn lemma_quoted_end_shift(a: Seq<char>, i: int, b: Seq<char>, j: int, quote: char)
    requires
        same_rest(a, i, b, j),
    ensures
        quoted_end(b, quote, j) - j == quoted_end(a, quote, i) - i,
    decreases a.len() - i,
{
    if i < a.len() {
        assert(a[i] == b[j]);
        if a[i] == '\\' {
            if i + 2 <= a.len() {
                lemma_quoted_end_shift(a, i + 2, b, j + 2, quote);
            } else {
                assert(quoted_end(a, quote, i + 2) == a.len());
                assert(quoted_end(b, quote, j + 2) == b.len());
            }
        } else if a[i] != quote {
            lemma_quoted_end_shift(a, i + 1, b, j + 1, quote);
        }
    }
}

pub proof fn lemma_line_end_shift(a: Seq<char>, i: int, b: Seq<char>, j: int)
    requires
        same_rest(a, i, b, j),
    ensures
        line_end(b, j) - j == line_end(a, i) - i,
    decreases a.len() - i,
{
    if i < a.len() {
        assert(a[i] == b[j]);
        if a[i] != '\n' {
            lemma_line_end_shift(a, i + 1, b, j + 1);
        }
    }
}

proof fn lemma_block_end_shift(a: Seq<char>, i: int, b: Seq<char>, j: int, depth: nat)
    requires
        same_rest(a, i, b, j),
    ensures
        block_end(b, j, depth) - j == block_end(a, i, depth) - i,
    decreases a.len() - i,
{
    if i < a.len() {
        assert(a[i] == b[j]);
        if i + 1 < a.len() {
            assert(a[i + 1] == b[j + 1]);
        }
        if a[i] == '*' && i + 1 < a.len() && a[i + 1] == '/' {
            if depth > 1 {
                lemma_block_end_shift(a, i + 2, b, j + 2, (depth - 1) as nat);
            }
        } else if block_comment_at(a, i) {
            lemma_block_end_shift(a, i + 2, b, j + 2, depth + 1);
        } else {
            lemma_block_end_shift(a, i + 1, b, j + 1, depth);
        }
    }
}

proof fn lemma_hash_end_shift(a: Seq<char>, i: int, b: Seq<char>, j: int)
    requires
        same_rest(a, i, b, j),
    ensures
        hash_end(b, j) - j == hash_end(a, i) - i,
    decreases a.len() - i,
{
    if i < a.len() {
        assert(a[i] == b[j]);
        if a[i] == '#' {
            lemma_hash_end_shift(a, i + 1, b, j + 1);
        }
    }
}

proof fn lemma_raw_end_shift(a: Seq<char>, i: int, b: Seq<char>, j: int, hashes: int)
    requires
        same_rest(a, i, b, j),
    ensures
        raw_end(b, hashes, j) - j == raw_end(a, hashes, i) - i,
    decreases a.len() - i,
{
    if i < a.len() {
        assert(a[i] == b[j]);
        lemma_hash_end_shift(a, i + 1, b, j + 1);
        lemma_raw_end_shift(a, i + 1, b, j + 1, hashes);
    }
}

proof fn lemma_code_piece_end_shift(a: Seq<char>, i: int, b: Seq<char>, j: int)
    requires
        i < a.len(),
        same_rest(a, i, b, j),
    ensures
        code_piece_end(b, j) - j == code_piece_end(a, i) - i,
{
    assert(a[i] == b[j]);
    if i + 1 < a.len() {
        assert(a[i + 1] == b[j + 1]);
    }
    if i + 2 < a.len() {
        assert(a[i + 2] == b[j + 2]);
    }
    lemma_line_end_shift(a, i, b, j);
    if block_comment_at(a, i) {
        lemma_block_end_shift(a, i + 2, b, j + 2, 1);
    }
    lemma_quoted_end_shift(a, i + 1, b, j + 1, '"');
    lemma_quoted_end_shift(a, i + 1, b, j + 1, '\'');
    lemma_hash_end_shift(a, i + 1, b, j + 1);
    lemma_hash_end(a, i + 1);
    let quote = hash_end(a, i + 1);
    if quote < a.len() {
        assert(a[quote] == b[quote - i + j]);
        lemma_raw_end_shift(a, quote + 1, b, quote + 1 - i + j, quote - (i + 1));
    }
}

/// The search looks at nothing in front of the place where it goes on.
pub proof fn lemma_code_at_shift(a: Seq<char>, i: int, b: Seq<char>, j: int, pat: Seq<char>)
    requires
        same_rest(a, i, b, j),
    ensures
        match code_at(a, pat, i) {
            Some(k) => code_at(b, pat, j) == Some(k - i + j),
            None => code_at(b, pat, j) is None,
        },
    decreases a.len() - i,
{
    if i < a.len() {
        if i + pat.len() <= a.len() {
            assert(a.subrange(i, i + pat.len()) == b.subrange(j, j + pat.len()));
        }
        if !occurs_at(a, pat, i) {
            lemma_code_piece_end(a, i);
            lemma_code_piece_end_shift(a, i, b, j);
            lemma_code_at_shift(a, code_piece_end(a, i), b, code_piece_end(b, j), pat);
        }
    }
}

/// `a` and `b` have the first `n` characters in common.
pub open spec fn same_start(a: Seq<char>, b: Seq<char>, n: int) -> bool {
    &&& n <= a.len()
    &&& n <= b.len()
    &&& forall|k: int| 0 <= k < n ==> a[k] == #[trigger] b[k]
}

pub proof fn lemma_quoted_end_prefix(a: Seq<char>, b: Seq<char>, quote: char, i: int, n: int)
    requires
        0 <= i <= n < a.len(),
        same_start(a, b, n),
        quoted_end(a, quote, i) <= n,
    ensures
        quoted_end(b, quote, i) == quoted_end(a, quote, i),
    decreases n - i,
{
    if a[i] == '\\' {
        if i + 2 <= a.len() {
            lemma_quoted_end(a, quote, i + 2);
            lemma_quoted_end_prefix(a, b, quote, i + 2, n);
        } else {
            assert(quoted_end(a, quote, i + 2) == a.len());
        }
    } else if a[i] != quote {
        lemma_quoted_end(a, quote, i + 1);
        lemma_quoted_end_prefix(a, b, quote, i + 1, n);
    }
}

pub proof fn lemma_line_end_prefix(a: Seq<char>, b: Seq<char>, i: int, n: int)
    requires
        0 <= i <= n < a.len(),
        same_start(a, b, n + 1),
        line_end(a, i) <= n,
    ensures
        line_end(b, i) == line_end(a, i),
    decreases n - i,
{
    assert(a[i] == b[i]);
    if a[i] != '\n' {
        lemma_line_end(a, i + 1);
        lemma_line_end_prefix(a, b, i + 1, n);
    }
}

proof fn lemma_block_end_prefix(a: Seq<char>, b: Seq<char>, i: int, depth: nat, n: int)
    requires
        0 <= i <= n < a.len(),
        same_start(a, b, n + 1),
        block_end(a, i, depth) <= n,
    ensures
        block_end(b, i, depth) == block_end(a, i, depth),
    decreases n - i,
{
    lemma_block_end(a, i, depth);
    assert(a[i] == b[i]);
    assert(a[i + 1] == b[i + 1]);
    if a[i] == '*' && a[i + 1] == '/' {
        if depth > 1 {
            lemma_block_end(a, i + 2, (depth - 1) as nat);
            lemma_block_end_prefix(a, b, i + 2, (depth - 1) as nat, n);
        }
    } else if block_comment_at(a, i) {
        lemma_block_end(a, i + 2, depth + 1);
        lemma_block_end_prefix(a, b, i + 2, depth + 1, n);
    } else {
        lemma_block_end(a, i + 1, depth);
        lemma_block_end_prefix(a, b, i + 1, depth, n);
    }
}

proof fn lemma_hash_end_prefix(a: Seq<char>, b: Seq<char>, i: int)
    requires
        0 <= i <= hash_end(a, i) < a.len(),
        same_start(a, b, hash_end(a, i) + 1),
    ensures
        hash_end(b, i) == hash_end(a, i),
    decreases a.len() - i,
{
    assert(a[i] == b[i]);
    if a[i] == '#' {
        lemma_hash_end(a, i + 1);
        lemma_hash_end_prefix(a, b, i + 1);
    }
}

/// A run of `#` is as long as what it holds.
proof fn lemma_hash_end_reaches(text: Seq<char>, i: int, end: int)
    requires
        0 <= i <= end <= text.len(),
        forall|k: int| i <= k < end ==> #[trigger] text[k] == '#',
    ensures
        hash_end(text, i) >= end,
    decreases end - i,
{
    if i < end {
        assert(text[i] == '#');
        lemma_hash_end_reaches(text, i + 1, end);
    } else {
        lemma_hash_end(text, i);
    }
}

/// No raw string ends inside a run of `#` that goes on at `i`.
proof fn lemma_raw_end_behind_hashes(text: Seq<char>, hashes: int, i: int)
    requires
        0 <= i <= text.len(),
        hashes >= 0,
    ensures
        raw_end(text, hashes, i) >= hash_end(text, i),
        hash_end(text, i) < text.len() ==> raw_end(text, hashes, i) > hash_end(text, i),
    decreases text.len() - i,
{
    lemma_raw_end(text, hashes, i);
    if i < text.len() && text[i] == '#' {
        lemma_raw_end_behind_hashes(text, hashes, i + 1);
    }
}

proof fn lemma_raw_end_prefix(a: Seq<char>, b: Seq<char>, hashes: int, i: int, n: int)
    requires
        0 <= i <= n < a.len(),
        hashes >= 0,
        same_start(a, b, n),
        raw_end(a, hashes, i) <= n,
    ensures
        raw_end(b, hashes, i) == raw_end(a, hashes, i),
    decreases n - i,
{
    lemma_raw_end(a, hashes, i);
    assert(a[i] == b[i]);
    lemma_hash_end(a, i + 1);
    let end = hash_end(a, i + 1);
    if a[i] == '"' && end - (i + 1) >= hashes {
        assert forall|k: int| i + 1 <= k < i + 1 + hashes implies #[trigger] b[k] == '#' by {
            assert(a[k] == '#');
        }
        lemma_hash_end_reaches(b, i + 1, i + 1 + hashes);
    } else {
        lemma_raw_end(a, hashes, i + 1);
        lemma_raw_end_behind_hashes(a, hashes, i + 1);
        lemma_hash_end_prefix(a, b, i + 1);
        lemma_raw_end_prefix(a, b, hashes, i + 1, n);
    }
}

proof fn lemma_code_piece_end_prefix(a: Seq<char>, b: Seq<char>, i: int, n: int)
    requires
        0 <= i < n,
        n + 2 <= a.len(),
        a[n] != '#',
        same_start(a, b, n + 2),
        code_piece_end(a, i) <= n,
    ensures
        code_piece_end(b, i) == code_piece_end(a, i),
{
    assert(a[i] == b[i]);
    assert(a[i + 1] == b[i + 1]);
    assert(a[i + 2] == b[i + 2]);
    lemma_hash_end(a, i + 1);
    let quote = hash_end(a, i + 1);
    assert(quote <= n);
    lemma_hash_end_prefix(a, b, i + 1);
    assert(a[quote] == b[quote]);
    if comment_at(a, i) {
        lemma_line_end_prefix(a, b, i, n);
    } else if block_comment_at(a, i) {
        lemma_block_end(a, i + 2, 1);
        lemma_block_end_prefix(a, b, i + 2, 1, n);
    } else if a[i] == '"' {
        lemma_quoted_end_prefix(a, b, '"', i + 1, n);
    } else if raw_at(a, i) {
        lemma_raw_end(a, quote - (i + 1), quote + 1);
        lemma_raw_end_prefix(a, b, quote - (i + 1), quote + 1, n);
    } else if a[i] == '\'' && a[i + 1] == '\\' {
        lemma_quoted_end_prefix(a, b, '\'', i + 1, n);
    }
}

/// The search looks at nothing behind what it finds.
pub proof fn lemma_code_at_prefix(a: Seq<char>, b: Seq<char>, pat: Seq<char>, i: int, k: int)
    requires
        0 <= i,
        pat.len() >= 2,
        pat[0] != '#',
        code_at(a, pat, i) == Some(k),
        same_start(a, b, k + pat.len()),
    ensures
        code_at(b, pat, i) == Some(k),
    decreases a.len() - i,
{
    lemma_code_at(a, pat, i);
    assert(a.subrange(i, i + pat.len()) == b.subrange(i, i + pat.len()));
    if !occurs_at(a, pat, i) {
        let e = code_piece_end(a, i);
        lemma_code_piece_end(a, i);
        lemma_code_at(a, pat, e);
        assert(a[k] == pat[0]) by {
            assert(a.subrange(k, k + pat.len())[0] == a[k]);
        }
        lemma_code_piece_end_prefix(a, b, i, k);
        lemma_code_at_prefix(a, b, pat, e, k);
    }
}

/// A run of `#` ends where the first other character stands.
pub proof fn lemma_hash_end_is(text: Seq<char>, i: int, end: int)
    requires
        0 <= i <= end <= text.len(),
        forall|k: int| i <= k < end ==> #[trigger] text[k] == '#',
        end < text.len() ==> text[end] != '#',
    ensures
        hash_end(text, i) == end,
    decreases end - i,
{
    if i < end {
        assert(text[i] == '#');
        lemma_hash_end_is(text, i + 1, end);
    }
}

/// A raw string ends at the first quote with enough `#` behind it.
pub proof fn lemma_raw_end_is(text: Seq<char>, hashes: int, i: int, end: int)
    requires
        0 <= i <= end,
        hashes >= 0,
        end + 1 + hashes <= text.len(),
        text[end] == '"',
        forall|k: int| end + 1 <= k < end + 1 + hashes ==> #[trigger] text[k] == '#',
        forall|k: int|
            i <= k < end && #[trigger] text[k] == '"' ==> exists|j: int|
                k < j <= k + hashes && #[trigger] text[j] != '#',
    ensures
        raw_end(text, hashes, i) == end + 1 + hashes,
    decreases end - i,
{
    lemma_hash_end(text, i + 1);
    if i == end {
        lemma_hash_end_reaches(text, i + 1, i + 1 + hashes);
    } else {
        lemma_raw_end_is(text, hashes, i + 1, end);
    }
}

/// A raw string without such a quote runs to the end of the text.
pub proof fn lemma_raw_end_runs_out(text: Seq<char>, hashes: int, i: int)
    requires
        0 <= i <= text.len(),
        hashes >= 0,
        forall|k: int|
            i <= k < text.len() && #[trigger] text[k] == '"' ==> k + hashes >= text.len()
                || exists|j: int| k < j <= k + hashes && #[trigger] text[j] != '#',
    ensures
        raw_end(text, hashes, i) == text.len(),
    decreases text.len() - i,
{
    if i < text.len() {
        lemma_hash_end(text, i + 1);
        lemma_raw_end_runs_out(text, hashes, i + 1);
    }
}

} // verus!
