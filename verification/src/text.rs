//! Searching and editing source text.
//!
//! Text is modelled as the sequence of its characters. Positions that leave
//! the library are byte offsets into the UTF-8 encoding, as editors and
//! language servers count them.

use vstd::prelude::*;

verus! {

/// A part of a text, from the byte offset `start` up to, but without, the byte
/// offset `end`.
#[derive(Clone, Copy, Debug, PartialEq, Eq, Structural)]
pub struct TextRange {
    pub start: usize,
    pub end: usize,
}

/// `pat` stands in `text` at character `k`.
pub open spec fn occurs_at(text: Seq<char>, pat: Seq<char>, k: int) -> bool {
    &&& 0 <= k
    &&& k + pat.len() <= text.len()
    &&& text.subrange(k, k + pat.len()) == pat
}

/// `pat` stands somewhere in `text`.
pub open spec fn found(text: Seq<char>, pat: Seq<char>) -> bool {
    exists|k: int| occurs_at(text, pat, k)
}

/// `k` is the leftmost place where `pat` stands in `text`.
pub open spec fn first_at(text: Seq<char>, pat: Seq<char>, k: int) -> bool {
    &&& occurs_at(text, pat, k)
    &&& forall|j: int| 0 <= j < k ==> !occurs_at(text, pat, j)
}

/// The leftmost place of `pat` in `text`, for a `pat` that is found there.
pub open spec fn first(text: Seq<char>, pat: Seq<char>) -> int {
    choose|k: int| first_at(text, pat, k)
}

/// `text` with the leftmost `from` replaced by `to`.
pub open spec fn patched(text: Seq<char>, from: Seq<char>, to: Seq<char>) -> Seq<char> {
    let k = first(text, from);
    text.take(k) + to + text.skip(k + from.len())
}

/// `text` with every `from` replaced by `to`, taken from the left and without
/// overlap.
pub open spec fn replaced(text: Seq<char>, from: Seq<char>, to: Seq<char>) -> Seq<char>
    decreases text.len(),
{
    if from.len() == 0 || !found(text, from) {
        text
    } else {
        proof {
            lemma_found(text, from);
        }
        let k = first(text, from);
        text.take(k) + to + replaced(text.skip(k + from.len()), from, to)
    }
}

/// The byte offset of character `k` in the UTF-8 encoding of `text`.
pub open spec fn byte_offset(text: Seq<char>, k: int) -> nat {
    vstd::utf8::encode_utf8(text.take(k)).len()
}

/// The leftmost `{` of `text` at or behind a byte offset stands at `k`.
pub open spec fn brace_at(text: Seq<char>, offset: nat, k: int) -> bool {
    &&& 0 <= k < text.len()
    &&& text[k] == '{'
    &&& byte_offset(text, k) >= offset
    &&& forall|j: int|
        0 <= j < k && #[trigger] text[j] == '{' ==> byte_offset(text, j) < offset
}

/// A `{` stands in `text` at or behind a byte offset.
pub open spec fn has_brace(text: Seq<char>, offset: nat) -> bool {
    exists|k: int| brace_at(text, offset, k)
}

/// The leftmost `{` of `text` at or behind a byte offset, where there is one.
pub open spec fn brace(text: Seq<char>, offset: nat) -> int {
    choose|k: int| brace_at(text, offset, k)
}

/// The range holds a `{` of `text`.
pub open spec fn brace_inside(text: Seq<char>, range: TextRange) -> bool {
    has_brace(text, range.start as nat) && byte_offset(text, brace(text, range.start as nat))
        < range.end
}

/// `text` with a space put behind the leftmost `{` in the range, or, where the
/// range holds none, behind the leftmost `{` of all.
pub open spec fn spaced(text: Seq<char>, range: TextRange) -> Seq<char> {
    if brace_inside(text, range) {
        let k = brace(text, range.start as nat);
        text.take(k) + "{ "@ + text.skip(k + 1)
    } else {
        patched(text, "{"@, "{ "@)
    }
}

/// A leftmost place is the only one, so `first` names it.
pub proof fn lemma_first(text: Seq<char>, pat: Seq<char>, k: int)
    requires
        first_at(text, pat, k),
    ensures
        first(text, pat) == k,
        found(text, pat),
{
    let f = first(text, pat);
    assert(first_at(text, pat, f));
    if f < k {
        assert(!occurs_at(text, pat, f));
    }
    if k < f {
        assert(!occurs_at(text, pat, k));
    }
}

/// What is found has a leftmost place.
pub proof fn lemma_found(text: Seq<char>, pat: Seq<char>)
    requires
        found(text, pat),
    ensures
        first_at(text, pat, first(text, pat)),
{
    let k = choose|k: int| occurs_at(text, pat, k);
    lemma_leftmost(text, pat, k);
}

proof fn lemma_leftmost(text: Seq<char>, pat: Seq<char>, k: int)
    requires
        occurs_at(text, pat, k),
    ensures
        exists|j: int| first_at(text, pat, j),
    decreases k,
{
    if exists|j: int| 0 <= j < k && occurs_at(text, pat, j) {
        let j = choose|j: int| 0 <= j < k && occurs_at(text, pat, j);
        lemma_leftmost(text, pat, j);
    } else {
        assert(first_at(text, pat, k));
    }
}

/// Searching from `start` on is searching what stands behind `start`.
pub proof fn lemma_skip(text: Seq<char>, pat: Seq<char>, start: int)
    requires
        0 <= start <= text.len(),
    ensures
        forall|j: int| 0 <= j ==> occurs_at(text.skip(start), pat, j) == #[trigger] occurs_at(
            text,
            pat,
            start + j,
        ),
        forall|j: int|
            start <= j ==> #[trigger] occurs_at(text, pat, j) == occurs_at(
                text.skip(start),
                pat,
                j - start,
            ),
        forall|j: int| #[trigger]
            occurs_at(text.skip(start), pat, j) ==> occurs_at(text, pat, start + j),
{
    assert forall|j: int| 0 <= j implies occurs_at(text.skip(start), pat, j)
        == #[trigger] occurs_at(text, pat, start + j) by {
        if start + j + pat.len() <= text.len() {
            assert(text.skip(start).subrange(j, j + pat.len()) == text.subrange(
                start + j,
                start + j + pat.len(),
            ));
        }
    }
    assert forall|j: int| start <= j implies #[trigger] occurs_at(text, pat, j) == occurs_at(
        text.skip(start),
        pat,
        j - start,
    ) by {
        assert(occurs_at(text, pat, start + (j - start)) == occurs_at(
            text.skip(start),
            pat,
            j - start,
        ));
    }
}

/// What stands behind the leftmost `pat` does not move it.
pub proof fn lemma_first_start(a: Seq<char>, b: Seq<char>, pat: Seq<char>)
    requires
        found(a, pat),
        first(a, pat) + pat.len() <= b.len(),
        a.take(first(a, pat) + pat.len()) == b.take(first(a, pat) + pat.len()),
    ensures
        found(b, pat),
        first(b, pat) == first(a, pat),
{
    lemma_found(a, pat);
    let k = first(a, pat);
    let n = k + pat.len();
    assert forall|j: int| 0 <= j <= k implies occurs_at(a, pat, j) == #[trigger] occurs_at(
        b,
        pat,
        j,
    ) by {
        assert(a.take(n).subrange(j, j + pat.len()) == a.subrange(j, j + pat.len()));
        assert(b.take(n).subrange(j, j + pat.len()) == b.subrange(j, j + pat.len()));
    }
    lemma_first(b, pat, k);
}

/// The encoding of two texts, one behind the other, is their two encodings.
pub proof fn lemma_encode_concat(a: Seq<char>, b: Seq<char>)
    ensures
        vstd::utf8::encode_utf8(a + b) == vstd::utf8::encode_utf8(a) + vstd::utf8::encode_utf8(b),
    decreases a.len(),
{
    if a.len() == 0 {
        assert(a + b == b);
    } else {
        lemma_encode_concat(a.drop_first(), b);
        assert((a + b).drop_first() == a.drop_first() + b);
    }
}

/// The next character begins where the encoding of this one ends.
pub proof fn lemma_byte_offset_step(text: Seq<char>, k: int)
    requires
        0 <= k < text.len(),
    ensures
        byte_offset(text, k + 1) == byte_offset(text, k) + vstd::utf8::encode_scalar(
            text[k] as u32,
        ).len(),
        byte_offset(text, k + 1) <= vstd::utf8::encode_utf8(text).len(),
{
    let one = seq![text[k]];
    assert(text.take(k + 1) == text.take(k) + one);
    lemma_encode_concat(text.take(k), one);
    assert(one.drop_first() == Seq::<char>::empty());
    assert(vstd::utf8::encode_utf8(one.drop_first()) == Seq::<u8>::empty());
    assert(text.take(k + 1) + text.skip(k + 1) == text);
    lemma_encode_concat(text.take(k + 1), text.skip(k + 1));
}

/// Characters farther right have greater offsets.
pub proof fn lemma_byte_offset_grows(text: Seq<char>, j: int, k: int)
    requires
        0 <= j <= k <= text.len(),
    ensures
        byte_offset(text, j) <= byte_offset(text, k),
        j < k ==> byte_offset(text, j) < byte_offset(text, k),
    decreases k - j,
{
    if j < k {
        lemma_byte_offset_grows(text, j, k - 1);
        lemma_byte_offset_step(text, k - 1);
    }
}

/// A leftmost brace is the only one, so `brace` names it.
pub proof fn lemma_brace_at(text: Seq<char>, offset: nat, k: int)
    requires
        brace_at(text, offset, k),
    ensures
        has_brace(text, offset),
        brace(text, offset) == k,
{
    let b = brace(text, offset);
    assert(brace_at(text, offset, b));
    if b < k {
        assert(text[b] == '{');
    }
    if k < b {
        assert(text[k] == '{');
    }
}

/// Looking for a brace is looking at single characters.
pub proof fn lemma_brace(text: Seq<char>)
    ensures
        "{"@ == seq!['{'],
        forall|k: int| #[trigger]
            occurs_at(text, "{"@, k) <==> (0 <= k < text.len() && text[k] == '{'),
{
    reveal_strlit("{");
    assert("{"@ == seq!['{']);
    assert forall|k: int| #[trigger] occurs_at(text, "{"@, k) <==> (0 <= k < text.len() && text[k]
        == '{') by {
        if 0 <= k < text.len() {
            assert(text.subrange(k, k + 1) == seq![text[k]]);
            assert(seq![text[k]][0] == text[k]);
            assert(seq!['{'][0] == '{');
        }
    }
}

/// A brace at or behind an offset is there, so there is a leftmost one.
proof fn lemma_has_brace(text: Seq<char>, offset: nat, k: int)
    requires
        0 <= k < text.len(),
        text[k] == '{',
        byte_offset(text, k) >= offset,
    ensures
        brace_at(text, offset, brace(text, offset)),
        brace(text, offset) <= k,
    decreases k,
{
    if exists|j: int| 0 <= j < k && text[j] == '{' && byte_offset(text, j) >= offset {
        let j = choose|j: int| 0 <= j < k && text[j] == '{' && byte_offset(text, j) >= offset;
        lemma_has_brace(text, offset, j);
    } else {
        lemma_brace_at(text, offset, k);
    }
}

/// Where the range holds a brace, the space goes behind the first brace in it,
/// and all else stays.
pub proof fn law_space_stays_in_range(text: Seq<char>, range: TextRange, k: int)
    requires
        0 <= k < text.len(),
        text[k] == '{',
        range.start <= byte_offset(text, k) < range.end,
    ensures
        ({
            let b = brace(text, range.start as nat);
            &&& 0 <= b <= k
            &&& text[b] == '{'
            &&& range.start <= byte_offset(text, b) < range.end
            &&& forall|j: int|
                0 <= j < b && #[trigger] text[j] == '{' ==> byte_offset(text, j) < range.start
            &&& brace_inside(text, range)
            &&& spaced(text, range) == text.take(b + 1) + seq![' '] + text.skip(b + 1)
        }),
{
    lemma_has_brace(text, range.start as nat, k);
    let b = brace(text, range.start as nat);
    lemma_byte_offset_grows(text, b, k);
    reveal_strlit("{ ");
    assert("{ "@ == seq!['{', ' ']);
    assert(text.take(b) + "{ "@ == text.take(b + 1) + seq![' ']);
}

/// Where the range holds no brace, the space goes behind the first brace of
/// the text, and all else stays.
pub proof fn law_space_falls_back_to_the_first_brace(text: Seq<char>, range: TextRange)
    requires
        found(text, "{"@),
        forall|k: int|
            0 <= k < text.len() && #[trigger] text[k] == '{' ==> !(range.start <= byte_offset(
                text,
                k,
            ) < range.end),
    ensures
        ({
            let b = first(text, "{"@);
            &&& 0 <= b < text.len()
            &&& text[b] == '{'
            &&& forall|j: int| 0 <= j < b ==> #[trigger] text[j] != '{'
            &&& spaced(text, range) == text.take(b + 1) + seq![' '] + text.skip(b + 1)
        }),
{
    lemma_found(text, "{"@);
    lemma_brace(text);
    let b = first(text, "{"@);
    assert forall|j: int| 0 <= j < b implies #[trigger] text[j] != '{' by {
        assert(!occurs_at(text, "{"@, j));
    }
    reveal_strlit("{ ");
    assert("{ "@ == seq!['{', ' ']);
    assert(text.take(b) + "{ "@ == text.take(b + 1) + seq![' ']);
    if brace_inside(text, range) {
        let k = brace(text, range.start as nat);
        assert(brace_at(text, range.start as nat, k));
        assert(text[k] == '{');
    }
}

/// What is put in stands where the replaced text stood, and all around it is
/// as before.
pub proof fn law_patch_replaces_in_place(text: Seq<char>, from: Seq<char>, to: Seq<char>)
    requires
        found(text, from),
    ensures
        ({
            let k = first(text, from);
            let after = patched(text, from, to);
            &&& occurs_at(after, to, k)
            &&& after.len() == text.len() - from.len() + to.len()
            &&& after.take(k) == text.take(k)
            &&& after.skip(k + to.len()) == text.skip(k + from.len())
            &&& byte_offset(after, k) == byte_offset(text, k)
        }),
{
    lemma_found(text, from);
    let k = first(text, from);
    let after = patched(text, from, to);
    assert(after.subrange(k, k + to.len()) == to);
    assert(after.take(k) == text.take(k));
    assert(after.skip(k + to.len()) == text.skip(k + from.len()));
}

/// Text is found exactly where it begins what is left behind some place.
pub proof fn law_found_is_part_of_the_text(text: Seq<char>, pat: Seq<char>)
    ensures
        found(text, pat) <==> exists|k: int|
            0 <= k <= text.len() && pat.is_prefix_of(#[trigger] text.skip(k)),
{
    if found(text, pat) {
        let k = choose|k: int| occurs_at(text, pat, k);
        assert(text.skip(k).subrange(0, pat.len() as int) == text.subrange(k, k + pat.len()));
        assert(pat.is_prefix_of(text.skip(k)));
    }
    if exists|k: int| 0 <= k <= text.len() && pat.is_prefix_of(#[trigger] text.skip(k)) {
        let k = choose|k: int| 0 <= k <= text.len() && pat.is_prefix_of(#[trigger] text.skip(k));
        lemma_stands_at(text, pat, k);
    }
}

/// The place that is found has the text, and none that has it stands farther
/// left.
pub proof fn law_first_is_leftmost(head: Seq<char>, pat: Seq<char>, tail: Seq<char>)
    ensures
        ({
            let text = head + pat + tail;
            &&& found(text, pat)
            &&& 0 <= first(text, pat) <= head.len()
            &&& pat.is_prefix_of(text.skip(first(text, pat)))
        }),
{
    let text = head + pat + tail;
    assert(text.subrange(head.len() as int, (head + pat).len() as int) == pat);
    assert(occurs_at(text, pat, head.len() as int));
    lemma_found(text, pat);
    let k = first(text, pat);
    assert(text.skip(k).subrange(0, pat.len() as int) == text.subrange(k, k + pat.len()));
}

/// The offset of a place is the length in bytes of the text in front of it.
pub proof fn law_offsets_count_bytes(head: Seq<char>, tail: Seq<char>)
    ensures
        byte_offset(head + tail, head.len() as int) == vstd::utf8::encode_utf8(head).len(),
{
    assert((head + tail).take(head.len() as int) == head);
}

/// In `head + pat + tail` no `pat` begins inside `head`.
pub open spec fn stands_first(head: Seq<char>, pat: Seq<char>, tail: Seq<char>) -> bool {
    forall|k: int| 0 <= k < head.len() ==> !pat.is_prefix_of(#[trigger] (head + pat + tail).skip(k))
}

/// No `pat` begins anywhere in `text`.
pub open spec fn stands_nowhere(text: Seq<char>, pat: Seq<char>) -> bool {
    forall|k: int| 0 <= k <= text.len() ==> !pat.is_prefix_of(#[trigger] text.skip(k))
}

pub proof fn lemma_stands_at(text: Seq<char>, pat: Seq<char>, k: int)
    requires
        0 <= k <= text.len(),
    ensures
        pat.is_prefix_of(text.skip(k)) == occurs_at(text, pat, k),
{
    if k + pat.len() <= text.len() {
        assert(text.skip(k).subrange(0, pat.len() as int) == text.subrange(k, k + pat.len()));
    }
}

pub proof fn lemma_stands_first(head: Seq<char>, pat: Seq<char>, tail: Seq<char>)
    requires
        stands_first(head, pat, tail),
    ensures
        ({
            let text = head + pat + tail;
            &&& found(text, pat)
            &&& first(text, pat) == head.len()
            &&& text.take(head.len() as int) == head
            &&& text.skip((head.len() + pat.len()) as int) == tail
        }),
{
    let text = head + pat + tail;
    let n = head.len() as int;
    assert(text.subrange(n, n + pat.len()) == pat);
    assert forall|j: int| 0 <= j < n implies !occurs_at(text, pat, j) by {
        lemma_stands_at(text, pat, j);
    }
    lemma_first(text, pat, n);
    assert(text.take(n) == head);
    assert(text.skip(n + pat.len()) == tail);
}

pub proof fn lemma_stands_nowhere(text: Seq<char>, pat: Seq<char>)
    ensures
        stands_nowhere(text, pat) == !found(text, pat),
{
    law_found_is_part_of_the_text(text, pat);
}

/// A patch swaps the leftmost piece of text and keeps what stands around it.
pub proof fn law_patch_swaps_the_leftmost(
    head: Seq<char>,
    from: Seq<char>,
    tail: Seq<char>,
    to: Seq<char>,
)
    requires
        stands_first(head, from, tail),
    ensures
        patched(head + from + tail, from, to) == head + to + tail,
{
    lemma_stands_first(head, from, tail);
}

/// Replacing swaps the leftmost piece of text and goes on behind it. A text
/// without the piece stays as it is.
pub proof fn law_replacing_goes_from_left_to_right(
    head: Seq<char>,
    from: Seq<char>,
    tail: Seq<char>,
    to: Seq<char>,
)
    requires
        from.len() > 0,
    ensures
        stands_first(head, from, tail) ==> replaced(head + from + tail, from, to) == head + to
            + replaced(tail, from, to),
        stands_nowhere(tail, from) ==> replaced(tail, from, to) == tail,
{
    if stands_first(head, from, tail) {
        lemma_stands_first(head, from, tail);
    }
    lemma_stands_nowhere(tail, from);
}

/// The space goes behind the first brace whose byte offset lies in the range.
/// Where none does it goes behind the first brace of all.
pub proof fn law_where_the_space_goes(head: Seq<char>, tail: Seq<char>, range: TextRange)
    ensures
        ({
            let text = head + seq!['{'] + tail;
            let offset = vstd::utf8::encode_utf8(head).len();
            &&& range.start <= offset < range.end && (forall|j: int|
                0 <= j < head.len() && #[trigger] head[j] == '{' ==> vstd::utf8::encode_utf8(
                    head.take(j),
                ).len() < range.start) ==> spaced(text, range) == head + seq!['{', ' '] + tail
            &&& !head.contains('{') && (forall|j: int|
                0 <= j < text.len() && #[trigger] text[j] == '{' ==> !(range.start
                    <= vstd::utf8::encode_utf8(text.take(j)).len() < range.end)) ==> spaced(
                text,
                range,
            ) == head + seq!['{', ' '] + tail
        }),
{
    let text = head + seq!['{'] + tail;
    let n = head.len() as int;
    assert(text.take(n) == head);
    assert(text.skip(n + 1) == tail);
    assert(text[n] == '{');
    assert(head + seq!['{', ' '] + tail == text.take(n + 1) + seq![' '] + text.skip(n + 1));
    let offset = vstd::utf8::encode_utf8(head).len();
    if range.start <= offset < range.end && (forall|j: int|
        0 <= j < head.len() && #[trigger] head[j] == '{' ==> vstd::utf8::encode_utf8(
            head.take(j),
        ).len() < range.start) {
        assert forall|j: int| 0 <= j < n && #[trigger] text[j] == '{' implies byte_offset(text, j)
            < range.start by {
            assert(head[j] == '{');
            assert(text.take(j) == head.take(j));
        }
        lemma_brace_at(text, range.start as nat, n);
        law_space_stays_in_range(text, range, n);
    }
    if !head.contains('{') && (forall|j: int|
        0 <= j < text.len() && #[trigger] text[j] == '{' ==> !(range.start
            <= vstd::utf8::encode_utf8(text.take(j)).len() < range.end)) {
        lemma_brace(text);
        assert(occurs_at(text, "{"@, n));
        law_space_falls_back_to_the_first_brace(text, range);
        let b = first(text, "{"@);
        if b < n {
            assert(head[b] == '{');
        }
    }
}

/// Patching back undoes a patch, as long as no copy of the new text stands
/// farther left.
pub proof fn law_patching_back_undoes(text: Seq<char>, from: Seq<char>, to: Seq<char>)
    requires
        found(text, from),
        first(patched(text, from, to), to) == first(text, from),
    ensures
        patched(patched(text, from, to), to, from) == text,
{
    law_patch_replaces_in_place(text, from, to);
    lemma_found(text, from);
    let k = first(text, from);
    assert(text.take(k) + from + text.skip(k + from.len()) == text);
}

/// The characters of `s`.
pub(crate) fn chars_of(s: &str) -> (chars: Vec<char>)
    ensures
        chars@ == s@,
{
    let mut chars: Vec<char> = Vec::new();
    for c in it: s.chars()
        invariant
            chars@ == it.seq().take(it.index() as int),
            it.seq() == s@,
    {
        chars.push(c);
        assert(it.seq().take(it.index() + 1) == it.seq().take(it.index() as int).push(c));
    }
    assert(s@.take(s@.len() as int) == s@);
    chars
}

/// Whether `pat` stands in `text` at `k`.
pub(crate) fn matches_at(text: &Vec<char>, pat: &Vec<char>, k: usize) -> (yes: bool)
    requires
        k + pat@.len() <= text@.len(),
    ensures
        yes == occurs_at(text@, pat@, k as int),
{
    let ghost window = text@.subrange(k as int, k + pat@.len());
    let mut i: usize = 0;
    while i < pat.len()
        invariant
            k + pat@.len() <= text.len(),
            window == text@.subrange(k as int, k + pat@.len()),
            i <= pat@.len(),
            forall|j: int| 0 <= j < i ==> window[j] == pat@[j],
        decreases pat@.len() - i,
    {
        if text[k + i] != pat[i] {
            assert(window[i as int] != pat@[i as int]);
            return false;
        }
        i += 1;
    }
    assert(window == pat@);
    true
}

/// The leftmost place of `pat` in `text` at or behind `start`.
pub(crate) fn find_from(text: &Vec<char>, pat: &Vec<char>, start: usize) -> (place: Option<usize>)
    requires
        start <= text@.len(),
    ensures
        match place {
            Some(k) => {
                &&& start <= k
                &&& occurs_at(text@, pat@, k as int)
                &&& forall|j: int| start <= j < k ==> !occurs_at(text@, pat@, j)
            },
            None => forall|j: int| start <= j ==> !occurs_at(text@, pat@, j),
        },
{
    let mut k: usize = start;
    while pat.len() <= text.len() - k
        invariant
            start <= k <= text@.len(),
            forall|j: int| start <= j < k ==> !occurs_at(text@, pat@, j),
        decreases text@.len() - k,
    {
        if matches_at(text, pat, k) {
            return Some(k);
        }
        if k == text.len() {
            return None;
        }
        k += 1;
    }
    None
}

/// Whether `pat` stands somewhere in `text`.
pub fn contains(text: &str, pat: &str) -> (yes: bool)
    ensures
        yes == found(text@, pat@),
{
    let chars = chars_of(text);
    let pat_chars = chars_of(pat);
    match find_from(&chars, &pat_chars, 0) {
        Some(k) => {
            assert(occurs_at(text@, pat@, k as int));
            true
        },
        None => false,
    }
}

/// Whether `text` begins with `pat`.
pub(crate) fn starts_with(text: &str, pat: &str) -> (yes: bool)
    ensures
        yes == pat@.is_prefix_of(text@),
{
    let chars = chars_of(text);
    let pat_chars = chars_of(pat);
    pat_chars.len() <= chars.len() && matches_at(&chars, &pat_chars, 0)
}

/// Whether `text` ends with `pat`.
pub(crate) fn ends_with(text: &str, pat: &str) -> (yes: bool)
    ensures
        yes == pat@.is_suffix_of(text@),
{
    let chars = chars_of(text);
    let pat_chars = chars_of(pat);
    pat_chars.len() <= chars.len() && matches_at(&chars, &pat_chars, chars.len() - pat_chars.len())
}

/// Replaces the leftmost `from` in `what` by `to`, and returns the byte offset
/// where it stood.
pub fn patch(what: &mut String, from: &str, to: &str) -> (idx: usize)
    requires
        found(old(what)@, from@),
    ensures
        final(what)@ == patched(old(what)@, from@, to@),
        idx == byte_offset(old(what)@, first(old(what)@, from@)),
{
    let chars = chars_of(what.as_str());
    let pat = chars_of(from);
    let k: usize = find_from(&chars, &pat, 0).unwrap();
    let n: usize = chars.len();
    proof {
        lemma_first(what@, from@, k as int);
    }
    let head = what.as_str().substring_char(0, k);
    let tail = what.as_str().substring_char(k + pat.len(), n);
    let idx: usize = head.as_bytes().len();
    let mut text = String::from_str(head);
    text.append(to);
    text.append(tail);
    *what = text;
    idx
}

/// Replaces the leftmost `from` in `what` by `to`, which begins with `typed`,
/// and returns the byte offset right behind `typed`: where the cursor stands
/// once a user has typed it.
pub(crate) fn patch_and_type(
    what: &mut String,
    from: &str,
    to: &str,
    typed: &str,
) -> (cursor: usize)
    requires
        found(old(what)@, from@),
        typed@.is_prefix_of(to@),
    ensures
        final(what)@ == patched(old(what)@, from@, to@),
        cursor == byte_offset(old(what)@, first(old(what)@, from@)) + vstd::utf8::encode_utf8(
            typed@,
        ).len(),
        cursor == byte_offset(final(what)@, first(old(what)@, from@) + typed@.len()),
{
    let ghost before = what@;
    let ghost k = first(before, from@);
    let idx: usize = patch(what, from, to);
    let width: usize = typed.as_bytes().len();
    let room: usize = what.as_str().as_bytes().len();
    proof {
        lemma_found(before, from@);
        let upto = what@.take(k + typed@.len());
        assert(upto == before.take(k) + typed@) by {
            assert(to@.take(typed@.len() as int) == typed@);
            assert forall|i: int| k <= i < k + typed@.len() implies upto[i] == typed@[i - k] by {
                assert(to@.take(typed@.len() as int)[i - k] == to@[i - k]);
            }
        }
        lemma_encode_concat(before.take(k), typed@);
        lemma_encode_concat(upto, what@.skip(k + typed@.len()));
        assert(upto + what@.skip(k + typed@.len()) == what@);
        assert(idx + width <= room);
    }
    idx + width
}

/// The number of bytes that encode a character.
fn width(c: char) -> (bytes: usize)
    ensures
        bytes == vstd::utf8::encode_scalar(c as u32).len(),
{
    let scalar: u32 = c as u32;
    if scalar <= 0x7f {
        1
    } else if scalar <= 0x7ff {
        2
    } else if scalar <= 0xffff {
        3
    } else {
        4
    }
}

/// Puts a space behind the leftmost `{` in the range, or, where the range holds
/// none, behind the leftmost `{` of all, and says whether there was one. A text
/// without a brace stays as it is.
pub(crate) fn space_behind_brace(what: &mut String, range: TextRange) -> (done: bool)
    ensures
        done == found(old(what)@, "{"@),
        final(what)@ == (if done {
            spaced(old(what)@, range)
        } else {
            old(what)@
        }),
{
    let chars = chars_of(what.as_str());
    let room: usize = what.as_str().as_bytes().len();
    let n: usize = chars.len();
    let ghost text = what@;
    let offset: usize = range.start;
    let mut at: usize = 0;
    let mut k: usize = 0;
    proof {
        lemma_brace(text);
    }
    while k < n && !(chars[k] == '{' && at >= offset)
        invariant
            text == what@,
            what@ == old(what)@,
            chars@ == text,
            n == text.len(),
            room == vstd::utf8::encode_utf8(text).len(),
            k <= n,
            at == byte_offset(text, k as int),
            forall|j: int|
                0 <= j < k && #[trigger] text[j] == '{' ==> byte_offset(text, j) < offset,
        decreases n - k,
    {
        proof {
            lemma_byte_offset_step(text, k as int);
        }
        at += width(chars[k]);
        k += 1;
    }
    if k < n {
        proof {
            lemma_brace_at(text, offset as nat, k as int);
            assert(occurs_at(text, "{"@, k as int));
        }
        if at < range.end {
            let mut edited = String::from_str(what.as_str().substring_char(0, k));
            edited.append("{ ");
            edited.append(what.as_str().substring_char(k + 1, n));
            *what = edited;
            return true;
        }
    }
    if contains(what.as_str(), "{") {
        patch(what, "{", "{ ");
        true
    } else {
        false
    }
}

/// `text` with every `from` replaced by `to`.
pub(crate) fn replace_all(text: &str, from: &str, to: &str) -> (out: String)
    requires
        from@.len() > 0,
    ensures
        out@ == replaced(text@, from@, to@),
{
    let chars = chars_of(text);
    let pat = chars_of(from);
    let n: usize = chars.len();
    let mut out = String::new();
    let mut done: usize = 0;
    assert(text@.skip(0) == text@);
    loop
        invariant
            chars@ == text@,
            pat@ == from@,
            n == text@.len(),
            from@.len() > 0,
            done <= n,
            out@ + replaced(text@.skip(done as int), from@, to@) == replaced(text@, from@, to@),
        decreases n - done,
    {
        let ghost rest = text@.skip(done as int);
        let ghost out0 = out@;
        let ghost start = done as int;
        proof {
            lemma_skip(text@, from@, done as int);
        }
        match find_from(&chars, &pat, done) {
            None => {
                out.append(text.substring_char(done, n));
                return out;
            },
            Some(k) => {
                proof {
                    assert forall|j: int| 0 <= j < k - done implies !occurs_at(rest, from@, j) by {
                        assert(!occurs_at(text@, from@, done + j));
                    }
                    assert(occurs_at(rest, from@, k - done));
                    lemma_first(rest, from@, k - done);
                }
                out.append(text.substring_char(done, k));
                out.append(to);
                done = k + pat.len();
                proof {
                    assert(rest.skip(k - start + from@.len()) == text@.skip(done as int));
                    assert(rest.take(k - start) == text@.subrange(start, k as int));
                    assert(out@ + replaced(text@.skip(done as int), from@, to@) == out0 + replaced(
                        rest,
                        from@,
                        to@,
                    ));
                }
            },
        }
    }
}

} // verus!
