//! Cutting the body of a `slint!` invocation out of a source file.

use vstd::prelude::*;

use crate::lex::{find_in_code, skip_line, skip_quoted};
#[allow(unused_imports)]
use crate::lex::{
    block_end, code_at, code_piece_end, comment_at, lemma_code_at, lemma_code_at_prefix,
    lemma_code_at_shift, lemma_hash_end_is, lemma_raw_end_is, lemma_raw_end_runs_out,
    lemma_line_end, lemma_line_end_prefix, lemma_line_end_shift, lemma_quoted_end,
    lemma_quoted_end_prefix, lemma_quoted_end_shift, line_end, quoted_end, same_rest, same_start,
};
use crate::text::{chars_of, find_from};
#[allow(unused_imports)]
use crate::text::{
    byte_offset, first, found, law_space_stays_in_range, lemma_brace, lemma_brace_at,
    lemma_byte_offset_grows, lemma_first, lemma_first_start, lemma_found, lemma_skip,
    lemma_stands_at, lemma_stands_first, lemma_stands_nowhere, occurs_at, spaced, stands_first,
    stands_nowhere, TextRange,
};

verus! {

/// Why a source file has no macro body to cut out.
#[derive(Clone, Copy, Debug, PartialEq, Eq, Structural)]
pub enum MacroBodyError {
    /// `slint!` stands nowhere in the file.
    NoInvocation,
    /// No `{` follows the `slint!` of the invocation.
    NoOpeningBrace,
    /// The brace behind `slint!` is never closed.
    Unbalanced,
}

/// Where the piece of text that begins at `i` ends. String literals, character
/// literals and line comments are one piece each; all else is cut into single
/// characters.
pub open spec fn piece_end(text: Seq<char>, i: int) -> int {
    if text[i] == '"' {
        quoted_end(text, '"', i + 1)
    } else if text[i] == '\'' {
        quoted_end(text, '\'', i + 1)
    } else if comment_at(text, i) {
        line_end(text, i)
    } else {
        i + 1
    }
}

/// The place of the `}` that closes the outermost brace, reading on at `i`
/// with `depth` braces open. Braces inside literals and comments do not count.
pub open spec fn closing(text: Seq<char>, i: int, depth: nat) -> Option<int>
    decreases text.len() - i,
{
    if i >= text.len() {
        None
    } else if text[i] == '{' {
        closing(text, i + 1, depth + 1)
    } else if text[i] == '}' {
        if depth <= 1 {
            Some(i)
        } else {
            closing(text, i + 1, (depth - 1) as nat)
        }
    } else {
        proof {
            lemma_piece_end(text, i);
        }
        closing(text, piece_end(text, i), depth)
    }
}

/// `slint!` stands in code, outside comments and literals.
pub open spec fn invoked(text: Seq<char>) -> bool {
    code_at(text, "slint!"@, 0) is Some
}

/// Where the invocation begins: the first `slint!` in code. A file that has the
/// text `slint!` in comments and literals alone is taken at the first of those.
pub open spec fn invocation(text: Seq<char>) -> int {
    match code_at(text, "slint!"@, 0) {
        Some(k) => k,
        None => first(text, "slint!"@),
    }
}

/// Where the invocation's body is opened: the first `{` behind its name.
pub open spec fn opening(text: Seq<char>) -> int {
    invocation(text) + first(text.skip(invocation(text)), "{"@)
}

/// The text between the outermost braces of the invocation.
pub open spec fn macro_body(text: Seq<char>) -> Result<Seq<char>, MacroBodyError> {
    if !found(text, "slint!"@) {
        Err(MacroBodyError::NoInvocation)
    } else if !found(text.skip(invocation(text)), "{"@) {
        Err(MacroBodyError::NoOpeningBrace)
    } else {
        match closing(text, opening(text), 0) {
            None => Err(MacroBodyError::Unbalanced),
            Some(close) => Ok(text.subrange(opening(text) + 1, close)),
        }
    }
}

/// A piece is never empty.
pub proof fn lemma_piece_end(text: Seq<char>, i: int)
    requires
        i < text.len(),
    ensures
        i < piece_end(text, i) <= text.len(),
{
    lemma_quoted_end(text, '"', i + 1);
    lemma_quoted_end(text, '\'', i + 1);
    lemma_line_end(text, i);
    if comment_at(text, i) {
        lemma_line_end(text, i + 1);
    }
}

/// A closing brace stands in the rest of the text.
proof fn lemma_closing_bounds(text: Seq<char>, i: int, depth: nat)
    requires
        i <= text.len(),
    ensures
        closing(text, i, depth) matches Some(c) ==> i <= c < text.len() && text[c] == '}',
    decreases text.len() - i,
{
    if i < text.len() {
        if text[i] == '{' {
            lemma_closing_bounds(text, i + 1, depth + 1);
        } else if text[i] == '}' {
            if depth > 1 {
                lemma_closing_bounds(text, i + 1, (depth - 1) as nat);
            }
        } else {
            lemma_piece_end(text, i);
            lemma_closing_bounds(text, piece_end(text, i), depth);
        }
    }
}

/// The end of the piece of text that begins at `i`.
fn skip_piece(text: &Vec<char>, i: usize) -> (end: usize)
    requires
        i < text@.len(),
    ensures
        end == piece_end(text@, i as int),
{
    let n: usize = text.len();
    if text[i] == '"' {
        skip_quoted(text, '"', i + 1)
    } else if text[i] == '\'' {
        skip_quoted(text, '\'', i + 1)
    } else if text[i] == '/' && n - i > 1 && text[i + 1] == '/' {
        skip_line(text, i)
    } else {
        i + 1
    }
}

/// The place of the brace that closes the one at `open`.
fn find_closing(text: &Vec<char>, open: usize) -> (close: Option<usize>)
    requires
        open <= text@.len(),
    ensures
        match close {
            Some(c) => closing(text@, open as int, 0) == Some(c as int),
            None => closing(text@, open as int, 0) is None,
        },
{
    let n: usize = text.len();
    let mut depth: usize = 0;
    let mut i: usize = open;
    while i < n
        invariant
            n == text@.len(),
            depth <= i <= n,
            closing(text@, open as int, 0) == closing(text@, i as int, depth as nat),
        decreases n - i,
    {
        if text[i] == '{' {
            depth += 1;
            i += 1;
        } else if text[i] == '}' {
            if depth <= 1 {
                return Some(i);
            }
            depth -= 1;
            i += 1;
        } else {
            proof {
                lemma_piece_end(text@, i as int);
            }
            i = skip_piece(text, i);
        }
    }
    None
}

/// The places of the outermost braces of the invocation.
fn find_body(text: &Vec<char>) -> (range: Result<(usize, usize), MacroBodyError>)
    ensures
        match range {
            Ok((open, close)) => {
                &&& macro_body(text@) is Ok
                &&& open == opening(text@)
                &&& closing(text@, open as int, 0) == Some(close as int)
                &&& open < close < text@.len()
            },
            Err(e) => macro_body(text@) == Err::<Seq<char>, MacroBodyError>(e),
        },
{
    let name = chars_of("slint!");
    let brace = chars_of("{");
    proof {
        lemma_code_at(text@, "slint!"@, 0);
    }
    let bang: usize = match find_in_code(text, &name) {
        Some(k) => k,
        None => match find_from(text, &name, 0) {
            Some(k) => {
                proof {
                    lemma_first(text@, "slint!"@, k as int);
                }
                k
            },
            None => {
                return Err(MacroBodyError::NoInvocation);
            },
        },
    };
    proof {
        lemma_skip(text@, "{"@, bang as int);
    }
    let open: usize = match find_from(text, &brace, bang) {
        Some(k) => k,
        None => {
            return Err(MacroBodyError::NoOpeningBrace);
        },
    };
    proof {
        lemma_first(text@.skip(bang as int), "{"@, open - bang);
        reveal_strlit("{");
        assert(text@[open as int] == text@.subrange(open as int, open + 1)[0]);
    }
    match find_closing(text, open) {
        Some(close) => {
            proof {
                lemma_closing_bounds(text@, open + 1, 1);
            }
            Ok((open, close))
        },
        None => Err(MacroBodyError::Unbalanced),
    }
}

/// Whether there is a macro body to cut out, and if not, why.
pub fn check_macro_body(src: &str) -> (checked: Result<(), MacroBodyError>)
    ensures
        match checked {
            Ok(()) => macro_body(src@) is Ok,
            Err(e) => macro_body(src@) == Err::<Seq<char>, MacroBodyError>(e),
        },
{
    let text = chars_of(src);
    match find_body(&text) {
        Ok(_) => Ok(()),
        Err(e) => Err(e),
    }
}

/// Cuts out the text between the outermost braces of the `slint!` invocation.
/// String literals, character literals and line comments between the braces
/// are skipped, so that braces inside them do not confuse the matching.
pub fn extract_macro_body(src: &str) -> (body: String)
    requires
        macro_body(src@) is Ok,
    ensures
        macro_body(src@) == Ok::<Seq<char>, MacroBodyError>(body@),
{
    let text = chars_of(src);
    let (open, close): (usize, usize) = find_body(&text).unwrap();
    src.substring_char(open + 1, close).to_owned()
}

/// `body` can stand between braces: every brace that it opens it closes, and
/// no literal or comment in it runs on past its end.
pub open spec fn self_contained(body: Seq<char>) -> bool {
    closing(body.push('}'), 0, 1) == Some(body.len() as int)
}

proof fn lemma_piece_end_shift(a: Seq<char>, i: int, b: Seq<char>, j: int)
    requires
        i < a.len(),
        same_rest(a, i, b, j),
    ensures
        piece_end(b, j) - j == piece_end(a, i) - i,
{
    assert(a[i] == b[j]);
    if i + 1 < a.len() {
        assert(a[i + 1] == b[j + 1]);
    }
    lemma_quoted_end_shift(a, i + 1, b, j + 1, '"');
    lemma_quoted_end_shift(a, i + 1, b, j + 1, '\'');
    lemma_line_end_shift(a, i, b, j);
}

/// The matching looks at nothing in front of the place where it goes on.
proof fn lemma_closing_shift(a: Seq<char>, i: int, b: Seq<char>, j: int, depth: nat)
    requires
        same_rest(a, i, b, j),
    ensures
        match closing(a, i, depth) {
            Some(c) => closing(b, j, depth) == Some(c - i + j),
            None => closing(b, j, depth) is None,
        },
    decreases a.len() - i,
{
    if i < a.len() {
        assert(a[i] == b[j]);
        if a[i] == '{' {
            lemma_closing_shift(a, i + 1, b, j + 1, depth + 1);
        } else if a[i] == '}' {
            if depth > 1 {
                lemma_closing_shift(a, i + 1, b, j + 1, (depth - 1) as nat);
            }
        } else {
            lemma_piece_end(a, i);
            lemma_piece_end_shift(a, i, b, j);
            lemma_closing_shift(a, piece_end(a, i), b, piece_end(b, j), depth);
        }
    }
}

/// The matching looks at nothing behind the brace that it finds.
proof fn lemma_closing_prefix(a: Seq<char>, b: Seq<char>, i: int, depth: nat, c: int)
    requires
        0 <= i <= a.len(),
        closing(a, i, depth) == Some(c),
        same_start(a, b, c + 1),
    ensures
        closing(b, i, depth) == Some(c),
    decreases a.len() - i,
{
    lemma_closing_bounds(a, i, depth);
    assert(a[i] == b[i]);
    if a[i] == '{' {
        lemma_closing_prefix(a, b, i + 1, depth + 1, c);
    } else if a[i] == '}' {
        if depth > 1 {
            lemma_closing_prefix(a, b, i + 1, (depth - 1) as nat, c);
        }
    } else {
        let e = piece_end(a, i);
        lemma_piece_end(a, i);
        lemma_closing_bounds(a, e, depth);
        assert(i + 1 <= c);
        assert(a[i + 1] == b[i + 1]);
        if a[i] == '"' {
            lemma_quoted_end_prefix(a, b, '"', i + 1, c);
        } else if a[i] == '\'' {
            lemma_quoted_end_prefix(a, b, '\'', i + 1, c);
        } else if comment_at(a, i) {
            lemma_line_end_prefix(a, b, i, c);
        }
        assert(piece_end(b, i) == e);
        lemma_closing_prefix(a, b, e, depth, c);
    }
}

/// The invocation begins with `slint!`.
proof fn lemma_invocation(text: Seq<char>)
    requires
        found(text, "slint!"@),
    ensures
        occurs_at(text, "slint!"@, invocation(text)),
{
    lemma_code_at(text, "slint!"@, 0);
    lemma_found(text, "slint!"@);
}

/// What stands behind the `slint!` of the invocation does not move it, as long
/// as `slint!` does not come to stand in code where it did not.
proof fn lemma_invocation_start(a: Seq<char>, b: Seq<char>)
    requires
        found(a, "slint!"@),
        same_start(a, b, invocation(a) + "slint!"@.len()),
        invoked(a) || !invoked(b),
    ensures
        found(b, "slint!"@),
        invocation(b) == invocation(a),
{
    let name = "slint!"@;
    let k = invocation(a);
    reveal_strlit("slint!");
    lemma_invocation(a);
    assert(a.take(k + name.len()) == b.take(k + name.len()));
    if invoked(a) {
        lemma_code_at_prefix(a, b, name, 0, k);
        lemma_code_at(b, name, 0);
    } else {
        lemma_first_start(a, b, name);
    }
}

/// The opening brace stands behind the name of the macro, and no other brace
/// is opened between the two.
proof fn lemma_opening(text: Seq<char>)
    requires
        found(text, "slint!"@),
        found(text.skip(invocation(text)), "{"@),
    ensures
        0 <= invocation(text),
        invocation(text) + "slint!"@.len() <= opening(text) < text.len(),
        text[opening(text)] == '{',
        forall|k: int| invocation(text) <= k < opening(text) ==> text[k] != '{',
{
    let bang = invocation(text);
    let rest = text.skip(bang);
    lemma_invocation(text);
    lemma_found(rest, "{"@);
    lemma_brace(rest);
    let open = opening(text);
    assert forall|k: int| bang <= k < open implies text[k] != '{' by {
        assert(!occurs_at(rest, "{"@, k - bang));
        assert(rest[k - bang] == text[k]);
    }
    reveal_strlit("slint!");
    assert forall|k: int| bang <= k < bang + "slint!"@.len() implies text[k] != '{' by {
        assert(text.subrange(bang, bang + "slint!"@.len())[k - bang] == text[k]);
    }
}

/// A file whose invocation is opened at `open` has that opening brace.
proof fn lemma_opening_at(text: Seq<char>, open: int)
    requires
        found(text, "slint!"@),
        0 <= invocation(text) <= open < text.len(),
        text[open] == '{',
        forall|k: int| invocation(text) <= k < open ==> text[k] != '{',
    ensures
        found(text.skip(invocation(text)), "{"@),
        opening(text) == open,
{
    let bang = invocation(text);
    let rest = text.skip(bang);
    lemma_brace(rest);
    assert forall|j: int| 0 <= j < open - bang implies !occurs_at(rest, "{"@, j) by {
        assert(rest[j] == text[j + bang]);
    }
    lemma_first(rest, "{"@, open - bang);
}

/// An extracted body is self-contained: every brace that it opens it closes.
pub proof fn law_extracted_is_self_contained(text: Seq<char>)
    requires
        macro_body(text) is Ok,
    ensures
        self_contained(macro_body(text)->Ok_0),
{
    let open = opening(text);
    lemma_opening(text);
    lemma_closing_bounds(text, open + 1, 1);
    let close = closing(text, open + 1, 1)->Some_0;
    let body = text.subrange(open + 1, close);
    let cut = text.take(close + 1);
    lemma_closing_prefix(text, cut, open + 1, 1, close);
    lemma_closing_shift(cut, open + 1, body.push('}'), 0, 1);
}

/// Wrapping a self-contained body in braces behind `slint!` and extracting it
/// again gives the body back, whatever follows it in the file. A head with
/// `slint!` in comments and literals alone does for a file without a `slint!`
/// in code.
pub proof fn law_extract_undoes_wrapping(head: Seq<char>, body: Seq<char>, tail: Seq<char>)
    requires
        found(head, "slint!"@),
        !found(head.skip(invocation(head)), "{"@),
        self_contained(body),
        invoked(head) || !invoked(head + seq!['{'] + body + seq!['}'] + tail),
    ensures
        macro_body(head + seq!['{'] + body + seq!['}'] + tail) == Ok::<
            Seq<char>,
            MacroBodyError,
        >(body),
{
    let text = head + seq!['{'] + body + seq!['}'] + tail;
    let open = head.len() as int;
    let close = open + 1 + body.len();
    let bang = invocation(head);
    lemma_invocation(head);
    lemma_invocation_start(head, text);
    assert forall|k: int| bang <= k < open implies text[k] != '{' by {
        lemma_brace(head.skip(bang));
        assert(!occurs_at(head.skip(bang), "{"@, k - bang));
        assert(head.skip(bang)[k - bang] == text[k]);
    }
    lemma_opening_at(text, open);
    let cut = text.take(close + 1);
    lemma_closing_shift(body.push('}'), 0, cut, open + 1, 1);
    lemma_closing_prefix(cut, text, open + 1, 1, close);
    assert(text.subrange(open + 1, close) == body);
}

/// Extracting looks past a prefix that is read as pieces of their own.
proof fn lemma_extract_behind(text: Seq<char>, rest: Seq<char>, n: int)
    requires
        0 <= n <= text.len(),
        text.skip(n) == rest,
        code_at(text, "slint!"@, 0) == code_at(text, "slint!"@, n),
    ensures
        invoked(text) == invoked(rest),
        invoked(rest) ==> invocation(text) == n + invocation(rest),
        invoked(rest) ==> macro_body(text) == macro_body(rest),
{
    let name = "slint!"@;
    assert forall|k: int| 0 <= k < rest.len() implies #[trigger] rest[k] == text[k + n] by {
        assert(text.skip(n)[k] == text[k + n]);
    }
    assert(same_rest(rest, 0, text, n));
    lemma_code_at_shift(rest, 0, text, n, name);
    let bang = invocation(rest);
    lemma_code_at(rest, name, 0);
    lemma_code_at(text, name, 0);
    if invoked(rest) {
        assert(invocation(text) == bang + n);
        assert(text.skip(bang + n) == rest.skip(bang));
    }
    if invoked(rest) && found(rest.skip(bang), "{"@) {
        lemma_opening(rest);
        let open = opening(rest);
        assert(opening(text) == open + n);
        lemma_closing_shift(rest, open, text, open + n, 0);
        lemma_closing_bounds(rest, open + 1, 1);
        if let Some(close) = closing(rest, open, 0) {
            assert(text.subrange(open + n + 1, close + n) == rest.subrange(open + 1, close));
        }
    }
}

/// A line comment in front is no invocation, whatever it holds: the body that
/// is extracted is that of the file behind it.
pub proof fn law_comments_hold_no_invocation(contents: Seq<char>, rest: Seq<char>)
    requires
        !contents.contains('\n'),
    ensures
        ({
            let comment = seq!['/', '/'] + contents + seq!['\n'];
            &&& invoked(comment + rest) == invoked(rest)
            &&& invoked(rest) ==> invocation(comment + rest) == comment.len() + invocation(rest)
            &&& invoked(rest) ==> macro_body(comment + rest) == macro_body(rest)
        }),
{
    let text = seq!['/', '/'] + contents + seq!['\n'] + rest;
    let name = "slint!"@;
    let end = 2 + contents.len() as int;
    assert forall|k: int| 0 <= k < end implies #[trigger] text[k] != '\n' by {
        if k >= 2 {
            assert(contents[k - 2] == text[k]);
        }
    }
    lemma_line_end_plain(text, 0, end);
    lemma_not_here(text, 0);
    lemma_not_here(text, end);
    assert(code_piece_end(text, 0) == end);
    assert(code_piece_end(text, end) == end + 1);
    assert(code_at(text, name, end) == code_at(text, name, end + 1));
    assert(text.skip(end + 1) == rest);
    lemma_extract_behind(text, rest, end + 1);
}

/// A literal in front is no invocation either, whatever it holds.
pub proof fn law_literals_hold_no_invocation(quote: char, contents: Seq<char>, rest: Seq<char>)
    requires
        quote == '"' || (quote == '\'' && (contents.len() == 1 || (contents.len() > 0 && contents[0]
            == '\\'))),
        quotable(contents, quote),
    ensures
        ({
            let literal = seq![quote] + contents + seq![quote];
            &&& invoked(literal + rest) == invoked(rest)
            &&& invoked(rest) ==> invocation(literal + rest) == literal.len() + invocation(rest)
            &&& invoked(rest) ==> macro_body(literal + rest) == macro_body(rest)
        }),
{
    let text = seq![quote] + contents + seq![quote] + rest;
    let name = "slint!"@;
    let end = 1 + contents.len() as int;
    assert(text.subrange(1, end) == contents);
    lemma_quoted_end_quotable(text, quote, 1, end);
    lemma_not_here(text, 0);
    if quote == '\'' {
        assert(text[1] == contents[0]);
        assert(contents.len() == 1 ==> text[2] == '\'');
    }
    assert(code_piece_end(text, 0) == end + 1);
    assert(text.skip(end + 1) == rest);
    lemma_extract_behind(text, rest, end + 1);
}

/// A file that begins with `slint!` is invoked there.
pub proof fn law_an_invocation_in_front_is_taken(rest: Seq<char>)
    ensures
        invoked("slint!"@ + rest),
        invocation("slint!"@ + rest) == 0,
{
    let text = "slint!"@ + rest;
    reveal_strlit("slint!");
    assert(text.subrange(0, "slint!"@.len() as int) == "slint!"@);
    assert(occurs_at(text, "slint!"@, 0));
}

/// A character in front that begins neither `slint!` nor a comment nor a
/// literal changes nothing. A single quote is such a character where it belongs
/// to a lifetime, and an `r` where no raw string follows.
pub proof fn law_plain_code_in_front_changes_nothing(c: char, hashes: int, rest: Seq<char>)
    requires
        !"slint!"@.is_prefix_of(seq![c] + rest),
        c != '"',
        c == '/' && rest.len() > 0 ==> rest[0] != '/' && rest[0] != '*',
        c == '\'' && rest.len() > 0 ==> rest[0] != '\\',
        c == '\'' && rest.len() > 1 ==> rest[1] != '\'',
        c == 'r' ==> {
            &&& 0 <= hashes <= rest.len()
            &&& forall|k: int| 0 <= k < hashes ==> #[trigger] rest[k] == '#'
            &&& hashes < rest.len() ==> rest[hashes] != '#' && rest[hashes] != '"'
        },
    ensures
        invoked(seq![c] + rest) == invoked(rest),
        invoked(rest) ==> invocation(seq![c] + rest) == 1 + invocation(rest),
        invoked(rest) ==> macro_body(seq![c] + rest) == macro_body(rest),
{
    let text = seq![c] + rest;
    lemma_stands_at(text, "slint!"@, 0);
    assert(text.skip(0) == text);
    assert(text[0] == c);
    if rest.len() > 0 {
        assert(text[1] == rest[0]);
    }
    if rest.len() > 1 {
        assert(text[2] == rest[1]);
    }
    if c == 'r' {
        assert forall|k: int| 1 <= k < hashes + 1 implies #[trigger] text[k] == '#' by {
            assert(rest[k - 1] == text[k]);
        }
        lemma_hash_end_is(text, 1, hashes + 1);
    }
    assert(code_piece_end(text, 0) == 1);
    assert(text.skip(1) == rest);
    lemma_extract_behind(text, rest, 1);
}

/// A raw string in front is no invocation either, whatever it holds.
pub proof fn law_raw_strings_hold_no_invocation(
    hashes: Seq<char>,
    contents: Seq<char>,
    rest: Seq<char>,
)
    requires
        forall|k: int| 0 <= k < hashes.len() ==> #[trigger] hashes[k] == '#',
        forall|k: int|
            0 <= k < contents.len() && #[trigger] contents[k] == '"' ==> k + hashes.len()
                >= contents.len() || exists|j: int|
                k < j <= k + hashes.len() && j < contents.len() && #[trigger] contents[j] != '#',
    ensures
        ({
            let raw = seq!['r'] + hashes + seq!['"'] + contents + seq!['"'] + hashes;
            &&& invoked(raw + rest) == invoked(rest)
            &&& invoked(rest) ==> invocation(raw + rest) == raw.len() + invocation(rest)
            &&& invoked(rest) ==> macro_body(raw + rest) == macro_body(rest)
        }),
{
    let raw = seq!['r'] + hashes + seq!['"'] + contents + seq!['"'] + hashes;
    let text = raw + rest;
    let n = hashes.len() as int;
    let start = n + 2;
    let end = start + contents.len();
    assert forall|k: int| 1 <= k < n + 1 implies #[trigger] text[k] == '#' by {
        assert(hashes[k - 1] == text[k]);
    }
    assert(text[n + 1] == '"');
    lemma_hash_end_is(text, 1, n + 1);
    assert(text[end] == '"');
    assert forall|k: int| end + 1 <= k < end + 1 + n implies #[trigger] text[k] == '#' by {
        assert(hashes[k - end - 1] == text[k]);
    }
    assert forall|k: int| start <= k < end && #[trigger] text[k] == '"' implies exists|j: int|
        k < j <= k + n && #[trigger] text[j] != '#' by {
        let l = k - start;
        assert(contents[l] == text[k]);
        if exists|j: int| l < j <= l + n && j < contents.len() && #[trigger] contents[j] != '#' {
            let j = choose|j: int|
                l < j <= l + n && j < contents.len() && #[trigger] contents[j] != '#';
            assert(text[j + start] == contents[j]);
        } else {
            assert(text[end] != '#');
        }
    }
    lemma_raw_end_is(text, n, start, end);
    lemma_not_here(text, 0);
    assert(text[0] == 'r');
    assert(code_piece_end(text, 0) == raw.len());
    assert(text.skip(raw.len() as int) == rest);
    lemma_extract_behind(text, rest, raw.len() as int);
}

/// What a block comment is made of: a `/*`, a `*/` or a single character, and
/// no two single characters that would make one of the two.
pub open spec fn comment_units(units: Seq<Seq<char>>) -> bool {
    &&& forall|i: int|
        0 <= i < units.len() ==> #[trigger] units[i] == seq!['/', '*'] || units[i] == seq!['*', '/']
            || units[i].len() == 1
    &&& forall|i: int|
        0 <= i < units.len() - 1 && (#[trigger] units[i]).len() == 1 ==> (units[i][0] == '/'
            ==> units[i + 1][0] != '*') && (units[i][0] == '*' ==> units[i + 1][0] != '/')
}

/// How many block comments are open behind the units.
pub open spec fn comments_open(units: Seq<Seq<char>>) -> int
    decreases units.len(),
{
    if units.len() == 0 {
        0
    } else {
        comments_open(units.drop_last()) + (if units.last() == seq!['/', '*'] {
            1int
        } else if units.last() == seq!['*', '/'] {
            -1
        } else {
            0
        })
    }
}

proof fn lemma_block_reads(text: Seq<char>, i: int, units: Seq<Seq<char>>, depth: nat)
    requires
        0 <= i,
        i + joined(units).len() <= text.len(),
        text.subrange(i, i + joined(units).len()) == joined(units),
        comment_units(units),
        units.len() > 0 && units.last().len() == 1 && i + joined(units).len() < text.len() ==> {
            let next = text[i + joined(units).len()];
            (units.last()[0] == '/' ==> next != '*') && (units.last()[0] == '*' ==> next != '/')
        },
        forall|n: int|
            0 <= n <= units.len() ==> depth + #[trigger] comments_open(units.take(n)) >= 1,
    ensures
        block_end(text, i, depth) == block_end(
            text,
            i + joined(units).len(),
            (depth + comments_open(units)) as nat,
        ),
    decreases units.len(),
{
    if units.len() > 0 {
        let before = units.drop_last();
        let last = units.last();
        let m = joined(before).len() as int;
        assert(units.take(units.len() as int) == units);
        assert(units.take(units.len() - 1) == before);
        assert forall|n: int| 0 <= n <= before.len() implies depth
            + #[trigger] comments_open(before.take(n)) >= 1 by {
            assert(before.take(n) == units.take(n));
        }
        assert forall|k: int| i <= k < i + joined(units).len() implies #[trigger] text[k]
            == joined(units)[k - i] by {
            assert(text.subrange(i, i + joined(units).len())[k - i] == text[k]);
        }
        assert(text.subrange(i, i + m) == joined(before));
        assert(text[i + m] == last[0]);
        if last.len() == 2 {
            assert(text[i + m + 1] == last[1]);
        }
        assert forall|k: int| 0 <= k < before.len() implies #[trigger] before[k] == units[k] by {}
        if before.len() > 0 {
            assert(before.last() == units[units.len() - 2]);
            assert(units[units.len() - 2 + 1] == last);
        }
        lemma_block_reads(text, i, before, depth);
        assert(last == units[units.len() - 1]);
        assert(seq!['/', '*'].len() == 2);
        assert(seq!['*', '/'].len() == 2);
    }
}

/// A block comment in front is no invocation either, whatever it holds. Block
/// comments nest.
pub proof fn law_block_comments_hold_no_invocation(units: Seq<Seq<char>>, rest: Seq<char>)
    requires
        comment_units(units),
        units.len() > 0 && units.last().len() == 1 ==> units.last()[0] != '/',
        forall|n: int| 0 <= n <= units.len() ==> #[trigger] comments_open(units.take(n)) >= 0,
        comments_open(units) == 0,
    ensures
        ({
            let comment = seq!['/', '*'] + joined(units) + seq!['*', '/'];
            &&& invoked(comment + rest) == invoked(rest)
            &&& invoked(rest) ==> invocation(comment + rest) == comment.len() + invocation(rest)
            &&& invoked(rest) ==> macro_body(comment + rest) == macro_body(rest)
        }),
{
    let comment = seq!['/', '*'] + joined(units) + seq!['*', '/'];
    let text = comment + rest;
    let end = 2 + joined(units).len() as int;
    assert(text.subrange(2, end) == joined(units));
    assert(text[end] == '*');
    assert(text[end + 1] == '/');
    lemma_block_reads(text, 2, units, 1);
    assert(block_end(text, end, 1) == end + 2);
    lemma_not_here(text, 0);
    assert(text[0] == '/' && text[1] == '*');
    assert(code_piece_end(text, 0) == end + 2);
    assert(text.skip(end + 2) == rest);
    lemma_extract_behind(text, rest, end + 2);
}

/// Comments and literals that run to the end of the file hold no invocation,
/// and neither does an empty file.
pub proof fn law_unclosed_comments_and_literals_hold_no_invocation(
    contents: Seq<char>,
    hashes: Seq<char>,
    units: Seq<Seq<char>>,
)
    ensures
        !invoked(Seq::<char>::empty()),
        !contents.contains('\n') ==> !invoked(seq!['/', '/'] + contents),
        unclosed(contents, '"') ==> !invoked(seq!['"'] + contents),
        unclosed(contents, '\'') && contents.len() > 0 && contents[0] == '\\' ==> !invoked(
            seq!['\''] + contents,
        ),
        (forall|k: int| 0 <= k < hashes.len() ==> #[trigger] hashes[k] == '#') && (forall|k: int|
            0 <= k < contents.len() && #[trigger] contents[k] == '"' ==> k + hashes.len()
                >= contents.len() || exists|j: int|
                k < j <= k + hashes.len() && j < contents.len() && #[trigger] contents[j] != '#')
            ==> !invoked(seq!['r'] + hashes + seq!['"'] + contents),
        comment_units(units) && (forall|n: int|
            0 <= n <= units.len() ==> #[trigger] comments_open(units.take(n)) >= 0) ==> !invoked(
            seq!['/', '*'] + joined(units),
        ),
{
    let name = "slint!"@;
    if !contents.contains('\n') {
        let text = seq!['/', '/'] + contents;
        lemma_line_end_runs_out(text, 0);
        lemma_not_here(text, 0);
        assert(code_piece_end(text, 0) == text.len());
        assert(code_at(text, name, text.len() as int) is None);
    }
    if unclosed(contents, '"') {
        let text = seq!['"'] + contents;
        assert(text.skip(1) == contents);
        lemma_unclosed(text, '"', 1, contents);
        lemma_not_here(text, 0);
        assert(code_piece_end(text, 0) == text.len());
        assert(code_at(text, name, text.len() as int) is None);
    }
    if unclosed(contents, '\'') && contents.len() > 0 && contents[0] == '\\' {
        let text = seq!['\''] + contents;
        assert(text.skip(1) == contents);
        lemma_unclosed(text, '\'', 1, contents);
        lemma_not_here(text, 0);
        assert(text[1] == '\\');
        assert(code_piece_end(text, 0) == text.len());
        assert(code_at(text, name, text.len() as int) is None);
    }
    if (forall|k: int| 0 <= k < hashes.len() ==> #[trigger] hashes[k] == '#') && (forall|k: int|
        0 <= k < contents.len() && #[trigger] contents[k] == '"' ==> k + hashes.len()
            >= contents.len() || exists|j: int|
            k < j <= k + hashes.len() && j < contents.len() && #[trigger] contents[j] != '#') {
        let text = seq!['r'] + hashes + seq!['"'] + contents;
        let n = hashes.len() as int;
        assert forall|k: int| 1 <= k < n + 1 implies #[trigger] text[k] == '#' by {
            assert(hashes[k - 1] == text[k]);
        }
        assert(text[n + 1] == '"');
        lemma_hash_end_is(text, 1, n + 1);
        assert forall|k: int| n + 2 <= k < text.len() && #[trigger] text[k] == '"' implies k + n
            >= text.len() || exists|j: int| k < j <= k + n && #[trigger] text[j] != '#' by {
            let l = k - (n + 2);
            assert(contents[l] == text[k]);
            if exists|j: int|
                l < j <= l + n && j < contents.len() && #[trigger] contents[j] != '#' {
                let j = choose|j: int|
                    l < j <= l + n && j < contents.len() && #[trigger] contents[j] != '#';
                assert(text[j + n + 2] == contents[j]);
            }
        }
        lemma_raw_end_runs_out(text, n, n + 2);
        lemma_not_here(text, 0);
        assert(text[0] == 'r');
        assert(code_piece_end(text, 0) == text.len());
        assert(code_at(text, name, text.len() as int) is None);
    }
    if comment_units(units) && (forall|n: int|
        0 <= n <= units.len() ==> #[trigger] comments_open(units.take(n)) >= 0) {
        let text = seq!['/', '*'] + joined(units);
        assert(text.subrange(2, text.len() as int) == joined(units));
        lemma_block_reads(text, 2, units, 1);
        lemma_not_here(text, 0);
        assert(text[0] == '/' && text[1] == '*');
        assert(code_piece_end(text, 0) == text.len());
        assert(code_at(text, name, text.len() as int) is None);
    }
}

/// Where `slint!` stands in comments and literals alone, the first of all is
/// taken.
pub proof fn law_without_code_the_first_text_is_taken(head: Seq<char>, tail: Seq<char>)
    requires
        stands_first(head, "slint!"@, tail),
        !invoked(head + "slint!"@ + tail),
    ensures
        invocation(head + "slint!"@ + tail) == head.len(),
{
    lemma_stands_first(head, "slint!"@, tail);
}

/// There is no invocation exactly where `slint!` stands nowhere in the file,
/// and no opening brace exactly where no `{` follows it.
pub proof fn law_what_is_missing(text: Seq<char>)
    ensures
        macro_body(text) == Err::<Seq<char>, MacroBodyError>(MacroBodyError::NoInvocation)
            <==> stands_nowhere(text, "slint!"@),
        macro_body(text) == Err::<Seq<char>, MacroBodyError>(MacroBodyError::NoOpeningBrace)
            <==> !stands_nowhere(text, "slint!"@) && !text.skip(invocation(text)).contains('{'),
        !stands_nowhere(text, "slint!"@) ==> 0 <= invocation(text) && "slint!"@.is_prefix_of(
            text.skip(invocation(text)),
        ),
{
    let rest = text.skip(invocation(text));
    lemma_stands_nowhere(text, "slint!"@);
    if found(text, "slint!"@) {
        lemma_invocation(text);
        lemma_stands_at(text, "slint!"@, invocation(text));
        lemma_brace(rest);
        if rest.contains('{') {
            let k = choose|k: int| 0 <= k < rest.len() && rest[k] == '{';
            assert(occurs_at(rest, "{"@, k));
        }
    }
}

/// A piece that the matching reads as a whole: a string or character literal, a
/// line comment with its line break, or any single character that is no quote.
pub open spec fn is_token(token: Seq<char>) -> bool {
    ||| token.len() == 1 && token[0] != '"' && token[0] != '\''
    ||| exists|contents: Seq<char>|
        #[trigger] quotable(contents, '"') && token == seq!['"'] + contents + seq!['"']
    ||| exists|contents: Seq<char>|
        #[trigger] quotable(contents, '\'') && token == seq!['\''] + contents + seq!['\'']
    ||| token.len() >= 3 && token[0] == '/' && token[1] == '/' && token.last() == '\n'
        && !token.subrange(2, token.len() - 1).contains('\n')
}

/// Pieces that stand one behind the other, with no two slashes that would begin
/// a comment.
pub open spec fn are_tokens(tokens: Seq<Seq<char>>) -> bool {
    &&& forall|i: int| 0 <= i < tokens.len() ==> is_token(#[trigger] tokens[i])
    &&& forall|i: int|
        0 <= i < tokens.len() - 1 && #[trigger] tokens[i] == seq!['/'] ==> tokens[i + 1][0] != '/'
}

/// The text that the pieces make up.
pub open spec fn joined(pieces: Seq<Seq<char>>) -> Seq<char>
    decreases pieces.len(),
{
    if pieces.len() == 0 {
        Seq::empty()
    } else {
        joined(pieces.drop_last()) + pieces.last()
    }
}

/// How many braces are open behind the pieces.
pub open spec fn braces_open(tokens: Seq<Seq<char>>) -> int
    decreases tokens.len(),
{
    if tokens.len() == 0 {
        0
    } else {
        braces_open(tokens.drop_last()) + (if tokens.last() == seq!['{'] {
            1int
        } else if tokens.last() == seq!['}'] {
            -1
        } else {
            0
        })
    }
}

/// A literal with these contents is not closed: behind none of its beginnings
/// that can stand between quotes does a quote follow.
pub open spec fn unclosed(contents: Seq<char>, quote: char) -> bool {
    forall|n: int|
        0 <= n < contents.len() && #[trigger] contents[n] == quote ==> !quotable(
            contents.take(n),
            quote,
        )
}

/// A literal or line comment that runs to the end of the file, or nothing.
pub open spec fn runs_out(rest: Seq<char>) -> bool {
    ||| rest.len() == 0
    ||| rest[0] == '"' && unclosed(rest.skip(1), '"')
    ||| rest[0] == '\'' && unclosed(rest.skip(1), '\'')
    ||| rest.len() >= 2 && rest[0] == '/' && rest[1] == '/' && !rest.contains('\n')
}

proof fn lemma_unclosed(text: Seq<char>, quote: char, i: int, contents: Seq<char>)
    requires
        0 <= i <= text.len(),
        contents == text.skip(i),
        unclosed(contents, quote),
        quote != '\\',
    ensures
        quoted_end(text, quote, i) == text.len(),
    decreases text.len() - i,
{
    if i < text.len() {
        assert(contents[0] == text[i]);
        if text[i] == '\\' {
            if i + 2 <= text.len() {
                let rest = text.skip(i + 2);
                assert forall|n: int| 0 <= n < rest.len() && #[trigger] rest[n]
                    == quote implies !quotable(rest.take(n), quote) by {
                    assert(contents[n + 2] == rest[n]);
                    assert(contents.take(n + 2).skip(2) == rest.take(n));
                    assert(contents.take(n + 2)[0] == '\\');
                }
                lemma_unclosed(text, quote, i + 2, rest);
            } else {
                assert(quoted_end(text, quote, i + 2) == text.len());
            }
        } else {
            assert(contents.take(0) == Seq::<char>::empty());
            assert(quotable(contents.take(0), quote));
            assert(text[i] != quote);
            let rest = text.skip(i + 1);
            assert forall|n: int| 0 <= n < rest.len() && #[trigger] rest[n]
                == quote implies !quotable(rest.take(n), quote) by {
                assert(contents[n + 1] == rest[n]);
                assert(contents.take(n + 1).skip(1) == rest.take(n));
                assert(contents.take(n + 1)[0] == text[i]);
            }
            lemma_unclosed(text, quote, i + 1, rest);
        }
    }
}

proof fn lemma_line_end_runs_out(text: Seq<char>, i: int)
    requires
        0 <= i <= text.len(),
        forall|k: int| i <= k < text.len() ==> #[trigger] text[k] != '\n',
    ensures
        line_end(text, i) == text.len(),
    decreases text.len() - i,
{
    if i < text.len() {
        lemma_line_end_runs_out(text, i + 1);
    }
}

/// Reading one piece opens or closes a brace if it is one, and nothing else.
proof fn lemma_token_reads(text: Seq<char>, i: int, token: Seq<char>, depth: nat)
    requires
        0 <= i,
        i + token.len() <= text.len(),
        text.subrange(i, i + token.len()) == token,
        is_token(token),
        token == seq!['/'] && i + 1 < text.len() ==> text[i + 1] != '/',
        depth >= 1,
        token == seq!['}'] ==> depth >= 2,
    ensures
        closing(text, i, depth) == closing(
            text,
            i + token.len(),
            (depth + (if token == seq!['{'] {
                1int
            } else if token == seq!['}'] {
                -1
            } else {
                0
            })) as nat,
        ),
{
    let end = i + token.len();
    assert forall|k: int| 0 <= k < token.len() implies token[k] == #[trigger] text[i + k] by {
        assert(text.subrange(i, end)[k] == text[i + k]);
    }
    assert(seq!['{'].len() == 1 && seq!['{'][0] == '{');
    assert(seq!['}'].len() == 1 && seq!['}'][0] == '}');
    assert(seq!['/'].len() == 1 && seq!['/'][0] == '/');
    if token.len() == 1 && token[0] != '"' && token[0] != '\'' {
        assert(text[i + 0] == token[0]);
        assert(token == seq![token[0]]);
        if token[0] != '{' && token[0] != '}' {
            assert(piece_end(text, i) == i + 1);
        }
    } else if exists|contents: Seq<char>|
        #[trigger] quotable(contents, '"') && token == seq!['"'] + contents + seq!['"'] {
        let contents = choose|contents: Seq<char>|
            #[trigger] quotable(contents, '"') && token == seq!['"'] + contents + seq!['"'];
        lemma_literal_reads(text, i, '"', contents);
    } else if exists|contents: Seq<char>|
        #[trigger] quotable(contents, '\'') && token == seq!['\''] + contents + seq!['\''] {
        let contents = choose|contents: Seq<char>|
            #[trigger] quotable(contents, '\'') && token == seq!['\''] + contents + seq!['\''];
        lemma_literal_reads(text, i, '\'', contents);
    } else {
        let last = end - 1;
        assert(text[i + 0] == '/');
        assert(text[i + 1] == '/');
        assert(text[i + (token.len() - 1)] == '\n');
        assert forall|k: int| i <= k < last implies #[trigger] text[k] != '\n' by {
            assert(text[i + (k - i)] == token[k - i]);
            if k >= i + 2 {
                assert(token.subrange(2, token.len() - 1)[k - i - 2] == token[k - i]);
            }
        }
        lemma_line_end_plain(text, i, last);
        assert(piece_end(text, i) == last);
        assert(piece_end(text, last) == end);
        assert(closing(text, last, depth) == closing(text, end, depth));
    }
}

proof fn lemma_literal_reads(text: Seq<char>, i: int, quote: char, contents: Seq<char>)
    requires
        0 <= i,
        i + contents.len() + 2 <= text.len(),
        quote == '"' || quote == '\'',
        quotable(contents, quote),
        text.subrange(i, i + contents.len() + 2) == seq![quote] + contents + seq![quote],
    ensures
        text[i] == quote,
        piece_end(text, i) == i + contents.len() + 2,
{
    let literal = seq![quote] + contents + seq![quote];
    let end = i + 1 + contents.len();
    assert forall|k: int| 0 <= k < literal.len() implies literal[k] == #[trigger] text[i + k] by {
        assert(text.subrange(i, end + 1)[k] == text[i + k]);
    }
    assert(text[i + 0] == quote);
    assert(text[i + (contents.len() + 1)] == quote);
    assert forall|k: int| 0 <= k < contents.len() implies contents[k] == #[trigger] text.subrange(
        i + 1,
        end,
    )[k] by {
        assert(literal[k + 1] == text[i + (k + 1)]);
    }
    assert(text.subrange(i + 1, end) == contents);
    lemma_quoted_end_quotable(text, quote, i + 1, end);
}

/// Reading pieces opens and closes the braces among them, and nothing else.
proof fn lemma_tokens_read(text: Seq<char>, i: int, tokens: Seq<Seq<char>>)
    requires
        0 <= i,
        i + joined(tokens).len() <= text.len(),
        text.subrange(i, i + joined(tokens).len()) == joined(tokens),
        are_tokens(tokens),
        tokens.len() > 0 && tokens.last() == seq!['/'] && i + joined(tokens).len() < text.len()
            ==> text[i + joined(tokens).len()] != '/',
        forall|n: int| 0 <= n <= tokens.len() ==> #[trigger] braces_open(tokens.take(n)) >= 0,
    ensures
        closing(text, i, 1) == closing(
            text,
            i + joined(tokens).len(),
            (1 + braces_open(tokens)) as nat,
        ),
    decreases tokens.len(),
{
    if tokens.len() > 0 {
        let before = tokens.drop_last();
        let last = tokens.last();
        let m = joined(before).len() as int;
        let size = joined(tokens).len();
        assert(size == m + last.len());
        assert(tokens.take(tokens.len() as int) == tokens);
        assert(tokens.take(tokens.len() - 1) == before);
        assert forall|n: int| 0 <= n <= before.len() implies #[trigger] braces_open(before.take(n))
            >= 0 by {
            assert(before.take(n) == tokens.take(n));
        }
        assert forall|k: int| 0 <= k < size implies joined(tokens)[k] == #[trigger] text[i + k] by {
            assert(text.subrange(i, i + size)[k] == text[i + k]);
        }
        assert(text.subrange(i, i + m) == joined(before));
        assert(text.subrange(i + m, i + m + last.len()) == last) by {
            assert forall|k: int| 0 <= k < last.len() implies text.subrange(
                i + m,
                i + m + last.len(),
            )[k] == last[k] by {
                assert(joined(tokens)[m + k] == text[i + (m + k)]);
            }
        }
        assert forall|k: int| 0 <= k < before.len() implies is_token(#[trigger] before[k]) by {
            assert(before[k] == tokens[k]);
        }
        assert forall|k: int| 0 <= k < before.len() - 1 && #[trigger] before[k]
            == seq!['/'] implies before[k + 1][0] != '/' by {
            assert(before[k] == tokens[k]);
            assert(before[k + 1] == tokens[k + 1]);
        }
        assert(is_token(tokens[tokens.len() - 1]));
        assert(last.len() > 0) by {
            lemma_token_is_not_empty(last);
        }
        assert(text[i + (m + 0)] == last[0]) by {
            assert(joined(tokens)[m + 0] == last[0]);
        }
        if before.len() > 0 && before.last() == seq!['/'] {
            assert(tokens[tokens.len() - 2] == seq!['/']);
            assert(tokens[tokens.len() - 2 + 1] == last);
        }
        lemma_tokens_read(text, i, before);
        lemma_token_reads(text, i + m, last, (1 + braces_open(before)) as nat);
    } else {
        assert(tokens.take(0) == tokens);
    }
}

proof fn lemma_token_is_not_empty(token: Seq<char>)
    requires
        is_token(token),
    ensures
        token.len() > 0,
{
}

/// The body reaches from the first brace behind the invocation to the brace
/// that closes it: the one where, for the first time, as many braces are closed
/// as are opened. Only the braces count that are pieces of their own; those in
/// literals and line comments do not.
pub proof fn law_braces_are_matched(head: Seq<char>, tokens: Seq<Seq<char>>, tail: Seq<char>)
    requires
        ({
            let text = head + seq!['{'] + joined(tokens) + seq!['}'] + tail;
            &&& !stands_nowhere(text, "slint!"@)
            &&& 0 <= invocation(text) <= head.len()
            &&& forall|k: int| invocation(text) <= k < head.len() ==> #[trigger] head[k] != '{'
        }),
        are_tokens(tokens),
        forall|n: int| 0 <= n <= tokens.len() ==> #[trigger] braces_open(tokens.take(n)) >= 0,
        braces_open(tokens) == 0,
    ensures
        macro_body(head + seq!['{'] + joined(tokens) + seq!['}'] + tail) == Ok::<
            Seq<char>,
            MacroBodyError,
        >(joined(tokens)),
{
    let body = joined(tokens);
    let text = head + seq!['{'] + body + seq!['}'] + tail;
    let open = head.len() as int;
    let close = open + 1 + body.len();
    lemma_stands_nowhere(text, "slint!"@);
    assert forall|k: int| invocation(text) <= k < open implies text[k] != '{' by {
        assert(text[k] == head[k]);
    }
    lemma_opening_at(text, open);
    assert(text.subrange(open + 1, close) == body);
    assert(text[close] == '}');
    lemma_tokens_read(text, open + 1, tokens);
    assert(closing(text, close, 1) == Some(close));
    assert(closing(text, open, 0) == closing(text, open + 1, 1));
}

/// Where the file ends before as many braces are closed as are opened, the
/// braces are unbalanced.
pub proof fn law_unmatched_braces_are_unbalanced(
    head: Seq<char>,
    tokens: Seq<Seq<char>>,
    rest: Seq<char>,
)
    requires
        ({
            let text = head + seq!['{'] + joined(tokens) + rest;
            &&& !stands_nowhere(text, "slint!"@)
            &&& 0 <= invocation(text) <= head.len()
            &&& forall|k: int| invocation(text) <= k < head.len() ==> #[trigger] head[k] != '{'
        }),
        are_tokens(tokens),
        forall|n: int| 0 <= n <= tokens.len() ==> #[trigger] braces_open(tokens.take(n)) >= 0,
        runs_out(rest),
        tokens.len() > 0 && tokens.last() == seq!['/'] && rest.len() > 0 ==> rest[0] != '/',
    ensures
        macro_body(head + seq!['{'] + joined(tokens) + rest) == Err::<Seq<char>, MacroBodyError>(
            MacroBodyError::Unbalanced,
        ),
{
    let text = head + seq!['{'] + joined(tokens) + rest;
    let open = head.len() as int;
    let at = open + 1 + joined(tokens).len();
    let depth = (1 + braces_open(tokens)) as nat;
    lemma_stands_nowhere(text, "slint!"@);
    assert forall|k: int| invocation(text) <= k < open implies text[k] != '{' by {
        assert(text[k] == head[k]);
    }
    lemma_opening_at(text, open);
    assert(text.subrange(open + 1, at) == joined(tokens));
    assert(text.skip(at) == rest);
    if rest.len() > 0 {
        assert(text[at] == rest[0]);
    }
    lemma_tokens_read(text, open + 1, tokens);
    assert(tokens.take(tokens.len() as int) == tokens);
    if rest.len() > 0 {
        assert(text.skip(at + 1) == rest.skip(1));
        if rest[0] == '"' {
            lemma_unclosed(text, '"', at + 1, rest.skip(1));
        } else if rest[0] == '\'' {
            lemma_unclosed(text, '\'', at + 1, rest.skip(1));
        } else {
            assert(text[at + 1] == rest[1]);
            assert forall|k: int| at <= k < text.len() implies #[trigger] text[k] != '\n' by {
                assert(rest[k - at] == text[k]);
            }
            lemma_line_end_runs_out(text, at);
        }
        assert(piece_end(text, at) == text.len());
    }
    assert(closing(text, text.len() as int, depth) is None);
    assert(closing(text, open, 0) == closing(text, open + 1, 1));
}

/// A text without quotes, braces and slashes is self-contained, and so is one
/// with slashes no two of which stand side by side.
pub proof fn law_plain_text_is_self_contained(text: Seq<char>)
    requires
        forall|k: int|
            0 <= k < text.len() ==> #[trigger] text[k] != '"' && text[k] != '\'' && text[k] != '{'
                && text[k] != '}',
        forall|k: int|
            0 <= k < text.len() - 1 ==> !(#[trigger] text[k] == '/' && text[k + 1] == '/'),
    ensures
        self_contained(text),
{
    lemma_plain_text(text.push('}'), text, 0);
}

proof fn lemma_plain_text(closed: Seq<char>, text: Seq<char>, i: int)
    requires
        closed == text.push('}'),
        0 <= i <= text.len(),
        forall|k: int|
            0 <= k < text.len() ==> #[trigger] text[k] != '"' && text[k] != '\'' && text[k] != '{'
                && text[k] != '}',
        forall|k: int|
            0 <= k < text.len() - 1 ==> !(#[trigger] text[k] == '/' && text[k + 1] == '/'),
    ensures
        closing(closed, i, 1) == Some(text.len() as int),
    decreases text.len() - i,
{
    if i < text.len() {
        assert(closed[i] == text[i]);
        if i + 1 < text.len() {
            assert(closed[i + 1] == text[i + 1]);
        }
        assert(piece_end(closed, i) == i + 1);
        lemma_plain_text(closed, text, i + 1);
    }
}

/// What can stand between quotes: any character but the quote and the
/// backslash, a backslash with any character behind it, and what can stand
/// there one behind the other. A quote or a lone backslash cannot.
pub proof fn law_what_stands_between_quotes(
    a: Seq<char>,
    b: Seq<char>,
    quote: char,
    c: char,
)
    requires
        quote == '"' || quote == '\'',
    ensures
        quotable(Seq::<char>::empty(), quote),
        quotable(seq![c], quote) <==> c != quote && c != '\\',
        quotable(seq!['\\', c], quote),
        quotable(a, quote) ==> (quotable(a + b, quote) <==> quotable(b, quote)),
    decreases a.len(),
{
    assert(seq![c].skip(1) == Seq::<char>::empty());
    assert(seq!['\\', c].skip(2) == Seq::<char>::empty());
    assert(quotable(Seq::<char>::empty(), quote));
    if quotable(a, quote) {
        if a.len() == 0 {
            assert(a + b == b);
        } else if a[0] == '\\' {
            law_what_stands_between_quotes(a.skip(2), b, quote, c);
            assert((a + b).skip(2) == a.skip(2) + b);
            assert((a + b)[0] == a[0]);
        } else {
            law_what_stands_between_quotes(a.skip(1), b, quote, c);
            assert((a + b).skip(1) == a.skip(1) + b);
            assert((a + b)[0] == a[0]);
        }
    }
}

/// `slint!` stands only where there is an `s`.
proof fn lemma_not_here(text: Seq<char>, i: int)
    requires
        0 <= i < text.len(),
        text[i] != 's',
    ensures
        !occurs_at(text, "slint!"@, i),
{
    reveal_strlit("slint!");
    if occurs_at(text, "slint!"@, i) {
        assert(text.subrange(i, i + "slint!"@.len())[0] == text[i]);
    }
}

/// Putting a space behind the first brace of a macro call that begins at
/// `slint!` and reaches over its brace changes the macro body by that space in
/// front and by nothing else.
pub proof fn law_space_edit_lands_in_body(text: Seq<char>, call: TextRange)
    requires
        macro_body(text) is Ok,
        call.start == byte_offset(text, invocation(text)),
        byte_offset(text, opening(text)) < call.end,
        invoked(text) || !invoked(spaced(text, call)),
    ensures
        found(text, "{"@),
        macro_body(spaced(text, call)) == Ok::<Seq<char>, MacroBodyError>(
            seq![' '] + macro_body(text)->Ok_0,
        ),
{
    lemma_opening(text);
    law_space_edit_lands_in_body_behind_path(text, invocation(text), call);
}

/// The same holds of a call that begins in front of `slint!`, with a path that
/// holds no brace.
pub proof fn law_space_edit_lands_in_body_behind_path(
    text: Seq<char>,
    start: int,
    call: TextRange,
)
    requires
        macro_body(text) is Ok,
        0 <= start <= invocation(text),
        forall|k: int| start <= k < invocation(text) ==> text[k] != '{',
        call.start == byte_offset(text, start),
        byte_offset(text, opening(text)) < call.end,
        invoked(text) || !invoked(spaced(text, call)),
    ensures
        found(text, "{"@),
        macro_body(spaced(text, call)) == Ok::<Seq<char>, MacroBodyError>(
            seq![' '] + macro_body(text)->Ok_0,
        ),
{
    let open = opening(text);
    let bang = invocation(text);
    let after = spaced(text, call);
    lemma_opening(text);
    lemma_byte_offset_grows(text, start, open);
    assert forall|j: int| 0 <= j < open && #[trigger] text[j] == '{' implies byte_offset(text, j)
        < call.start by {
        lemma_byte_offset_grows(text, j, start);
    }
    lemma_brace_at(text, call.start as nat, open);
    law_space_stays_in_range(text, call, open);
    assert(after == text.take(open + 1) + seq![' '] + text.skip(open + 1));
    lemma_brace(text);
    assert(occurs_at(text, "{"@, open));
    lemma_invocation_start(text, after);
    assert forall|k: int| bang <= k < open implies after[k] != '{' by {
        assert(after[k] == text[k]);
    }
    lemma_opening_at(after, open);
    lemma_closing_bounds(text, open + 1, 1);
    let close = closing(text, open + 1, 1)->Some_0;
    lemma_closing_shift(text, open + 1, after, open + 2, 1);
    assert(piece_end(after, open + 1) == open + 2);
    assert(closing(after, open + 1, 1) == closing(after, open + 2, 1));
    assert(after.subrange(open + 1, close + 1) == seq![' '] + text.subrange(open + 1, close));
}

/// Reading through a self-contained text leaves as many braces open as there
/// were, in whatever it is embedded.
proof fn lemma_closing_through(a: Seq<char>, text: Seq<char>, i: int, depth: nat, more: nat)
    requires
        0 <= i <= a.len(),
        depth >= 1,
        closing(a.push('}'), i, depth) == Some(a.len() as int),
        same_start(a, text, a.len() as int),
        a.len() == 0 || a.last() != '/' || a.len() == text.len() || text[a.len() as int] != '/',
    ensures
        closing(text, i, depth + more) == closing(text, a.len() as int, 1 + more),
    decreases a.len() - i,
{
    let closed = a.push('}');
    let n = a.len() as int;
    if i < n {
        assert(closed[i] == text[i]);
        if closed[i] == '{' {
            lemma_closing_through(a, text, i + 1, depth + 1, more);
        } else if closed[i] == '}' {
            lemma_closing_through(a, text, i + 1, (depth - 1) as nat, more);
        } else {
            let e = piece_end(closed, i);
            lemma_piece_end(closed, i);
            lemma_closing_bounds(closed, e, depth);
            assert(same_start(closed, text, n));
            if closed[i] == '"' {
                lemma_quoted_end_prefix(closed, text, '"', i + 1, n);
            } else if closed[i] == '\'' {
                lemma_quoted_end_prefix(closed, text, '\'', i + 1, n);
            } else if comment_at(closed, i) {
                assert(closed[i + 1] == text[i + 1]);
                assert(line_end(closed, n) == n + 1) by {
                    assert(line_end(closed, n + 1) == n + 1);
                }
                lemma_line_end_stops(closed, i);
                lemma_line_end_prefix(closed, text, i, e);
            } else if i + 1 < n {
                assert(closed[i + 1] == text[i + 1]);
            } else {
                assert(!comment_at(text, i));
            }
            assert(piece_end(text, i) == e);
            lemma_closing_through(a, text, e, depth, more);
        }
    } else {
        assert(closing(closed, n + 1, (depth - 1) as nat) is None);
    }
}

/// A line ends at a line break or with the text.
proof fn lemma_line_end_stops(text: Seq<char>, i: int)
    requires
        0 <= i <= text.len(),
    ensures
        line_end(text, i) == text.len() || text[line_end(text, i)] == '\n',
    decreases text.len() - i,
{
    if i < text.len() && text[i] != '\n' {
        lemma_line_end_stops(text, i + 1);
    }
}

/// Self-contained texts, one behind the other, are self-contained, unless two
/// slashes meet where they join: those begin a comment.
pub proof fn law_joining_keeps_self_contained(a: Seq<char>, b: Seq<char>)
    requires
        self_contained(a),
        self_contained(b),
        !(a.len() > 0 && a.last() == '/' && b.len() > 0 && b[0] == '/'),
    ensures
        self_contained(a + b),
{
    let text = (a + b).push('}');
    lemma_closing_through(a, text, 0, 1, 0);
    lemma_closing_shift(b.push('}'), 0, text, a.len() as int, 1);
}

/// A self-contained text in braces is self-contained.
pub proof fn law_braces_keep_self_contained(a: Seq<char>)
    requires
        self_contained(a),
    ensures
        self_contained(seq!['{'] + a + seq!['}']),
{
    let n = a.len() as int;
    let inner = a.push('}');
    let text = (seq!['{'] + a + seq!['}']).push('}');
    let rest = text.skip(1);
    assert(rest == inner.push('}'));
    lemma_closing_through(a, rest, 0, 1, 1);
    lemma_closing_shift(rest, 0, text, 1, 2);
    assert(rest[n] == '}');
    assert(rest[n + 1] == '}');
    assert(closing(rest, n + 1, 1) == Some(n + 1));
    assert(closing(rest, n, 2) == closing(rest, n + 1, 1));
    assert(closing(text, 0, 1) == closing(text, 1, 2));
}

/// `contents` can stand between two of `quote`: each backslash has a character
/// behind it that it escapes, and no other character is the quote.
pub open spec fn quotable(contents: Seq<char>, quote: char) -> bool
    decreases contents.len(),
{
    if contents.len() == 0 {
        true
    } else if contents[0] == '\\' {
        contents.len() >= 2 && quotable(contents.skip(2), quote)
    } else {
        contents[0] != quote && quotable(contents.skip(1), quote)
    }
}

/// Braces inside a string or character literal do not count: every literal is
/// self-contained, escapes in it included.
pub proof fn law_literals_are_self_contained(quote: char, contents: Seq<char>)
    requires
        quote == '"' || quote == '\'',
        quotable(contents, quote),
    ensures
        self_contained(seq![quote] + contents + seq![quote]),
{
    let literal = seq![quote] + contents + seq![quote];
    let text = literal.push('}');
    let end = literal.len() - 1;
    assert(text.subrange(1, end) == contents);
    lemma_quoted_end_quotable(text, quote, 1, end);
    assert(text[literal.len() as int] == '}');
    assert(piece_end(text, 0) == literal.len());
    assert(closing(text, literal.len() as int, 1) == Some(literal.len() as int));
}

proof fn lemma_quoted_end_quotable(text: Seq<char>, quote: char, i: int, end: int)
    requires
        0 <= i <= end < text.len(),
        quote != '\\',
        text[end] == quote,
        quotable(text.subrange(i, end), quote),
    ensures
        quoted_end(text, quote, i) == end + 1,
    decreases end - i,
{
    let contents = text.subrange(i, end);
    if i < end {
        assert(contents[0] == text[i]);
        if text[i] == '\\' {
            assert(contents.skip(2) == text.subrange(i + 2, end));
            lemma_quoted_end_quotable(text, quote, i + 2, end);
        } else {
            assert(contents.skip(1) == text.subrange(i + 1, end));
            lemma_quoted_end_quotable(text, quote, i + 1, end);
        }
    }
}

/// Braces inside a line comment do not count: every line comment with its line
/// break is self-contained.
pub proof fn law_comments_are_self_contained(contents: Seq<char>)
    requires
        !contents.contains('\n'),
    ensures
        self_contained(seq!['/', '/'] + contents + seq!['\n']),
{
    let comment = seq!['/', '/'] + contents + seq!['\n'];
    let text = comment.push('}');
    let end = comment.len() - 1;
    assert forall|k: int| 0 <= k < end implies text[k] != '\n' by {
        if k >= 2 {
            assert(contents[k - 2] == text[k]);
        }
    }
    lemma_line_end_plain(text, 0, end);
    assert(piece_end(text, 0) == end);
    assert(piece_end(text, end) == end + 1);
    assert(closing(text, end + 1, 1) == Some(end + 1));
    assert(closing(text, end, 1) == closing(text, end + 1, 1));
}

proof fn lemma_line_end_plain(text: Seq<char>, i: int, end: int)
    requires
        0 <= i <= end < text.len(),
        text[end] == '\n',
        forall|k: int| i <= k < end ==> #[trigger] text[k] != '\n',
    ensures
        line_end(text, i) == end,
    decreases end - i,
{
    if i < end {
        lemma_line_end_plain(text, i + 1, end);
    }
}

} // verus!
