//! The edits that the benchmarks make to the file under test.

use vstd::prelude::*;

use crate::text::{
    contains, patch, patch_and_type, replace_all, space_behind_brace, TextRange,
};
#[allow(unused_imports)]
use crate::text::{
    brace, brace_at, brace_inside, byte_offset, first, first_at, found,
    law_replacing_goes_from_left_to_right, law_where_the_space_goes, lemma_brace,
    lemma_encode_concat, lemma_first, lemma_found, lemma_stands_at, lemma_stands_first,
    lemma_stands_nowhere, occurs_at, patched, replaced, spaced, stands_first, stands_nowhere,
};

verus! {

/// An edit of the file under test.
#[derive(Clone, Copy, Debug, PartialEq, Eq, Structural)]
pub enum Edit {
    /// Puts spaces into every access to one configuration field.
    RespaceField,
    /// Types `sel` on a line of its own in front of the call.
    TypeSel,
    /// Puts a `;` in front of the `sel` typed before.
    SeparateSel,
    /// Goes on from `sel` to `self.`.
    TypeSelfDot,
    /// Puts a unit statement in front of the call.
    InsertUnit,
    /// Puts a space behind the first brace in the macro call, or, where the
    /// call holds no brace, behind the first brace of the file.
    SpaceInBraces { call: TextRange },
}

/// Why an edit cannot be made.
#[derive(Clone, Copy, Debug, PartialEq, Eq, Structural)]
pub enum EditError {
    /// The text to replace does not stand in the file.
    NoMatch,
    /// No brace is opened in the file.
    NoBrace,
}

impl Edit {
    /// The text that the edit replaces.
    pub open spec fn from(self) -> Seq<char> {
        match self {
            Edit::RespaceField => "self.data.cargo_buildScripts_rebuildOnSave"@,
            Edit::TypeSel => "db.struct_signature(self.id)"@,
            Edit::SeparateSel => "sel;\ndb.struct_signature(self.id)"@,
            Edit::TypeSelfDot => "sel;\ndb.struct_signature(self.id)"@,
            Edit::InsertUnit => "db.struct_signature(self.id)"@,
            Edit::SpaceInBraces { .. } => "{"@,
        }
    }

    /// The text that takes its place.
    pub open spec fn to(self) -> Seq<char> {
        match self {
            Edit::RespaceField => "self. data. cargo_buildScripts_rebuildOnSave"@,
            Edit::TypeSel => "sel;\ndb.struct_signature(self.id)"@,
            Edit::SeparateSel => ";sel;\ndb.struct_signature(self.id)"@,
            Edit::TypeSelfDot => "self.;\ndb.struct_signature(self.id)"@,
            Edit::InsertUnit => "();\ndb.struct_signature(self.id)"@,
            Edit::SpaceInBraces { .. } => "{ "@,
        }
    }

    /// The part of the new text that ends at the cursor, for an edit that
    /// leaves a cursor.
    pub open spec fn typed(self) -> Option<Seq<char>> {
        match self {
            Edit::TypeSel => Some("sel"@),
            Edit::SeparateSel => Some(";sel"@),
            Edit::TypeSelfDot => Some("self."@),
            _ => None,
        }
    }

    /// The edit can be made to `text`.
    pub open spec fn applies(self, text: Seq<char>) -> bool {
        match self {
            Edit::RespaceField => true,
            _ => found(text, self.from()),
        }
    }

    /// `text` after the edit: every occurrence of the field respaced, a space
    /// behind a brace, or the leftmost occurrence replaced.
    pub open spec fn edited(self, text: Seq<char>) -> Seq<char> {
        match self {
            Edit::RespaceField => replaced(text, self.from(), self.to()),
            Edit::SpaceInBraces { call } => spaced(text, call),
            _ => patched(text, self.from(), self.to()),
        }
    }

    /// The byte offset of the cursor in `text` after the edit.
    pub open spec fn cursor(self, text: Seq<char>) -> Option<nat> {
        match self.typed() {
            Some(typed) => Some(
                byte_offset(self.edited(text), first(text, self.from()) + typed.len()),
            ),
            None => None,
        }
    }

    /// The error for a text that the edit does not apply to.
    pub open spec fn error(self) -> EditError {
        if self is SpaceInBraces {
            EditError::NoBrace
        } else {
            EditError::NoMatch
        }
    }

    fn from_text(self) -> (text: &'static str)
        ensures
            text@ == self.from(),
    {
        match self {
            Edit::RespaceField => "self.data.cargo_buildScripts_rebuildOnSave",
            Edit::TypeSel => "db.struct_signature(self.id)",
            Edit::SeparateSel => "sel;\ndb.struct_signature(self.id)",
            Edit::TypeSelfDot => "sel;\ndb.struct_signature(self.id)",
            Edit::InsertUnit => "db.struct_signature(self.id)",
            Edit::SpaceInBraces { .. } => "{",
        }
    }

    fn to_text(self) -> (text: &'static str)
        ensures
            text@ == self.to(),
    {
        match self {
            Edit::RespaceField => "self. data. cargo_buildScripts_rebuildOnSave",
            Edit::TypeSel => "sel;\ndb.struct_signature(self.id)",
            Edit::SeparateSel => ";sel;\ndb.struct_signature(self.id)",
            Edit::TypeSelfDot => "self.;\ndb.struct_signature(self.id)",
            Edit::InsertUnit => "();\ndb.struct_signature(self.id)",
            Edit::SpaceInBraces { .. } => "{ ",
        }
    }

    fn typed_text(self) -> (text: Option<&'static str>)
        ensures
            match text {
                Some(t) => self.typed() == Some(t@) && t@.is_prefix_of(self.to()),
                None => self.typed() is None,
            },
    {
        match self {
            Edit::TypeSel => {
                proof {
                    reveal_strlit("sel");
                    reveal_strlit("sel;\ndb.struct_signature(self.id)");
                }
                Some("sel")
            },
            Edit::SeparateSel => {
                proof {
                    reveal_strlit(";sel");
                    reveal_strlit(";sel;\ndb.struct_signature(self.id)");
                }
                Some(";sel")
            },
            Edit::TypeSelfDot => {
                proof {
                    reveal_strlit("self.");
                    reveal_strlit("self.;\ndb.struct_signature(self.id)");
                }
                Some("self.")
            },
            _ => None,
        }
    }

    /// Makes the edit and returns the byte offset of the cursor that it leaves,
    /// if it leaves one. A text that the edit does not apply to stays as it is.
    pub fn apply(self, text: &mut String) -> (cursor: Result<Option<usize>, EditError>)
        ensures
            match cursor {
                Ok(c) => {
                    &&& self.applies(old(text)@)
                    &&& final(text)@ == self.edited(old(text)@)
                    &&& match c {
                        Some(offset) => self.cursor(old(text)@) == Some(offset as nat),
                        None => self.cursor(old(text)@) is None,
                    }
                },
                Err(e) => {
                    &&& !self.applies(old(text)@)
                    &&& final(text)@ == old(text)@
                    &&& e == self.error()
                },
            },
    {
        let from = self.from_text();
        let to = self.to_text();
        match self {
            Edit::RespaceField => {
                proof {
                    reveal_strlit("self.data.cargo_buildScripts_rebuildOnSave");
                }
                *text = replace_all(text.as_str(), from, to);
                Ok(None)
            },
            Edit::SpaceInBraces { call } => {
                if space_behind_brace(text, call) {
                    Ok(None)
                } else {
                    Err(EditError::NoBrace)
                }
            },
            _ => {
                if !contains(text.as_str(), from) {
                    return Err(EditError::NoMatch);
                }
                match self.typed_text() {
                    Some(typed) => Ok(Some(patch_and_type(text, from, to, typed))),
                    None => {
                        patch(text, from, to);
                        Ok(None)
                    },
                }
            },
        }
    }
}

/// `text` without its spaces.
pub open spec fn without_spaces(text: Seq<char>) -> Seq<char> {
    text.filter(|c: char| c != ' ')
}

proof fn lemma_without_spaces_concat(a: Seq<char>, b: Seq<char>)
    ensures
        without_spaces(a + b) == without_spaces(a) + without_spaces(b),
{
    Seq::filter_distributes_over_add(a, b, |c: char| c != ' ');
}

proof fn lemma_one_space()
    ensures
        without_spaces(seq![' ']) == Seq::<char>::empty(),
{
    reveal(Seq::filter);
    let one = seq![' '];
    assert(one.drop_last() == Seq::<char>::empty());
    assert(one.drop_last().filter(|c: char| c != ' ') == Seq::<char>::empty());
}

/// Swapping texts that differ in spaces alone changes spaces alone.
proof fn lemma_replaced_without_spaces(text: Seq<char>, from: Seq<char>, to: Seq<char>)
    requires
        without_spaces(from) == without_spaces(to),
    ensures
        without_spaces(replaced(text, from, to)) == without_spaces(text),
    decreases text.len(),
{
    if from.len() > 0 && found(text, from) {
        lemma_found(text, from);
        let k = first(text, from);
        let head = text.take(k);
        let tail = text.skip(k + from.len());
        lemma_replaced_without_spaces(tail, from, to);
        lemma_without_spaces_concat(head, to);
        lemma_without_spaces_concat(head + to, replaced(tail, from, to));
        lemma_without_spaces_concat(head, from);
        lemma_without_spaces_concat(head + from, tail);
        assert(head + from + tail == text);
    }
}

/// The two edits that only move code apart change nothing but spaces.
pub proof fn law_respacing_changes_spaces_alone(edit: Edit, text: Seq<char>)
    requires
        edit is RespaceField || edit is SpaceInBraces,
        edit.applies(text),
    ensures
        without_spaces(edit.edited(text)) == without_spaces(text),
{
    lemma_one_space();
    if edit is RespaceField {
        reveal_strlit("self.data.cargo_buildScripts_rebuildOnSave");
        reveal_strlit("self. data. cargo_buildScripts_rebuildOnSave");
        let from = edit.from();
        let to = edit.to();
        let a = from.take(5);
        let b = from.subrange(5, 10);
        let c = from.skip(10);
        let gap = seq![' '];
        assert(from == a + b + c);
        assert(to == a + gap + b + gap + c);
        lemma_without_spaces_concat(a, b);
        lemma_without_spaces_concat(a + b, c);
        lemma_without_spaces_concat(a, gap);
        lemma_without_spaces_concat(a + gap, b);
        lemma_without_spaces_concat(a + gap + b, gap);
        lemma_without_spaces_concat(a + gap + b + gap, c);
        assert(without_spaces(a) + Seq::<char>::empty() == without_spaces(a));
        assert(without_spaces(a) + without_spaces(b) + Seq::<char>::empty() == without_spaces(a)
            + without_spaces(b));
        lemma_replaced_without_spaces(text, from, to);
    } else {
        reveal_strlit("{");
        reveal_strlit("{ ");
        let k = if brace_inside(text, edit->call) {
            brace(text, edit->call.start as nat)
        } else {
            first(text, "{"@)
        };
        lemma_brace(text);
        lemma_found(text, "{"@);
        assert(brace_inside(text, edit->call) ==> brace_at(text, edit->call.start as nat, k));
        assert(text[k] == '{');
        let head = text.take(k + 1);
        let gap = seq![' '];
        let tail = text.skip(k + 1);
        assert(spaced(text, edit->call) == head + gap + tail);
        assert(text == head + tail);
        lemma_without_spaces_concat(head, gap);
        lemma_without_spaces_concat(head + gap, tail);
        lemma_without_spaces_concat(head, tail);
        assert(without_spaces(head) + Seq::<char>::empty() == without_spaces(head));
    }
}

/// Respacing leaves no access to the field as it was, in whatever file.
pub proof fn law_respacing_leaves_no_field(text: Seq<char>)
    ensures
        Edit::RespaceField.applies(text),
        stands_nowhere(
            Edit::RespaceField.edited(text),
            "self.data.cargo_buildScripts_rebuildOnSave"@,
        ),
    decreases text.len(),
{
    let from = "self.data.cargo_buildScripts_rebuildOnSave"@;
    let to = "self. data. cargo_buildScripts_rebuildOnSave"@;
    let after = Edit::RespaceField.edited(text);
    reveal_strlit("self.data.cargo_buildScripts_rebuildOnSave");
    reveal_strlit("self. data. cargo_buildScripts_rebuildOnSave");
    if found(text, from) {
        lemma_found(text, from);
        let k = first(text, from);
        let tail = text.skip(k + from.len());
        let rest = Edit::RespaceField.edited(tail);
        law_respacing_leaves_no_field(tail);
        lemma_stands_nowhere(rest, from);
        assert(after == text.take(k) + to + rest);
        assert forall|j: int| !occurs_at(after, from, j) by {
            if occurs_at(after, from, j) {
                lemma_field_crosses(text.take(k), rest, j);
                let end = j + from.len();
                if end <= k {
                    assert(text.subrange(j, end) == after.subrange(j, end));
                    assert(occurs_at(text, from, j));
                } else {
                    let i = j - (k + to.len());
                    assert(rest.subrange(i, i + from.len()) == after.subrange(j, end));
                    assert(occurs_at(rest, from, i));
                }
            }
        }
    }
    lemma_stands_nowhere(after, from);
}

/// The field does not stand across the respaced field.
proof fn lemma_field_crosses(head: Seq<char>, tail: Seq<char>, j: int)
    requires
        occurs_at(
            head + "self. data. cargo_buildScripts_rebuildOnSave"@ + tail,
            "self.data.cargo_buildScripts_rebuildOnSave"@,
            j,
        ),
    ensures
        j + 42 <= head.len() || j >= head.len() + 44,
        "self.data.cargo_buildScripts_rebuildOnSave"@.len() == 42,
        "self. data. cargo_buildScripts_rebuildOnSave"@.len() == 44,
{
    let from = "self.data.cargo_buildScripts_rebuildOnSave"@;
    let to = "self. data. cargo_buildScripts_rebuildOnSave"@;
    let text = head + to + tail;
    let k = head.len() as int;
    reveal_strlit("self.data.cargo_buildScripts_rebuildOnSave");
    reveal_strlit("self. data. cargo_buildScripts_rebuildOnSave");
    let window = text.subrange(j, j + 42);
    assert(window == from);
    assert forall|i: int| 0 <= i < 42 implies from[i] == #[trigger] text[j + i] by {
        assert(window[i] == text[j + i]);
    }
    assert forall|i: int| 0 <= i < 44 implies to[i] == #[trigger] text[k + i] by {}
    if k < j + 42 <= k + 5 {
        // The end of the field is not the beginning of `self.`.
        let last = j + 41;
        assert(text[j + 41] == 'e');
        assert(text[j + 40] == 'v');
        assert(text[k + (last - k)] == to[last - k]);
        assert(last == k + 1);
        assert(text[k + 0] == 's');
    } else if j <= k + 5 < j + 42 {
        assert(text[k + 5] == ' ');
        assert(from[k + 5 - j] == text[j + (k + 5 - j)]);
    } else if j <= k + 11 < j + 42 {
        assert(text[k + 11] == ' ');
        assert(from[k + 11 - j] == text[j + (k + 11 - j)]);
    } else if k + 12 <= j < k + 44 {
        assert(text[j + 0] == 's');
        assert(text[j + 1] == 'e');
        assert(text[k + (j - k)] == to[j - k]);
        assert(j - k == 29);
        assert(text[k + 30] == to[30]);
    }
}

/// Respacing swaps the leftmost access to the field and goes on behind it. A
/// file without the field stays as it is, and no cursor is left.
pub proof fn law_respacing_goes_from_left_to_right(head: Seq<char>, tail: Seq<char>)
    ensures
        ({
            let field = "self.data.cargo_buildScripts_rebuildOnSave"@;
            let edit = Edit::RespaceField;
            &&& stands_first(head, field, tail) ==> edit.edited(head + field + tail) == head
                + "self. data. cargo_buildScripts_rebuildOnSave"@ + edit.edited(tail)
            &&& stands_nowhere(tail, field) ==> edit.edited(tail) == tail
            &&& edit.applies(tail)
            &&& edit.cursor(tail) is None
        }),
{
    reveal_strlit("self.data.cargo_buildScripts_rebuildOnSave");
    law_replacing_goes_from_left_to_right(
        head,
        "self.data.cargo_buildScripts_rebuildOnSave"@,
        tail,
        "self. data. cargo_buildScripts_rebuildOnSave"@,
    );
}

/// The unit statement stands on a line of its own right in front of the
/// leftmost call. All else stays, and no cursor is left.
pub proof fn law_the_unit_statement_is_in_front_of_the_call(head: Seq<char>, tail: Seq<char>)
    requires
        stands_first(head, "db.struct_signature(self.id)"@, tail),
    ensures
        ({
            let call = "db.struct_signature(self.id)"@;
            let text = head + call + tail;
            &&& Edit::InsertUnit.applies(text)
            &&& Edit::InsertUnit.edited(text) == head + "();\n"@ + call + tail
            &&& Edit::InsertUnit.edited(text) == with_inserted(text, call, "();\n"@)
            &&& Edit::InsertUnit.cursor(text) is None
        }),
{
    let call = "db.struct_signature(self.id)"@;
    let text = head + call + tail;
    lemma_stands_first(head, call, tail);
    reveal_strlit("db.struct_signature(self.id)");
    reveal_strlit("();\n");
    reveal_strlit("();\ndb.struct_signature(self.id)");
    assert("();\ndb.struct_signature(self.id)"@ == "();\n"@ + call);
    assert(text.skip(head.len() as int) == call + tail);
    assert(Edit::InsertUnit.edited(text) == head + "();\n"@ + call + tail);
}

/// The unit statement goes in front of the leftmost call of every file that
/// has one, and nothing else of the file changes.
pub proof fn law_inserting_changes_nothing_else(text: Seq<char>)
    requires
        !stands_nowhere(text, "db.struct_signature(self.id)"@),
    ensures
        exists|k: int|
            {
                &&& 0 <= k < text.len()
                &&& "db.struct_signature(self.id)"@.is_prefix_of(#[trigger] text.skip(k))
                &&& forall|j: int|
                    0 <= j < k ==> !"db.struct_signature(self.id)"@.is_prefix_of(
                        #[trigger] text.skip(j),
                    )
                &&& Edit::InsertUnit.edited(text) == text.take(k) + "();\n"@ + text.skip(k)
            },
{
    let call = "db.struct_signature(self.id)"@;
    lemma_stands_nowhere(text, call);
    lemma_found(text, call);
    let k = first(text, call);
    let head = text.take(k);
    let tail = text.skip(k + call.len());
    reveal_strlit("db.struct_signature(self.id)");
    assert(text.subrange(k, k + call.len()) == call);
    assert(text == head + call + tail);
    lemma_stands_at(text, call, k);
    assert forall|j: int| 0 <= j < k implies !call.is_prefix_of(#[trigger] text.skip(j)) by {
        lemma_stands_at(text, call, j);
    }
    law_the_unit_statement_is_in_front_of_the_call(head, tail);
    assert(head + "();\n"@ + call + tail == text.take(k) + "();\n"@ + text.skip(k));
}

/// The edits of the completion benchmark swap the leftmost text that they look
/// for, keep what stands around it, and leave the cursor behind what is typed.
pub proof fn law_typing_leaves_the_cursor_behind_the_text(head: Seq<char>, tail: Seq<char>)
    ensures
        ({
            let call = "db.struct_signature(self.id)"@;
            let line = "sel;\ndb.struct_signature(self.id)"@;
            let offset = vstd::utf8::encode_utf8(head).len();
            &&& stands_first(head, call, tail) ==> {
                &&& Edit::TypeSel.applies(head + call + tail)
                &&& Edit::TypeSel.edited(head + call + tail) == head + line + tail
                &&& Edit::TypeSel.cursor(head + call + tail) == Some(offset + 3)
            }
            &&& stands_first(head, line, tail) ==> {
                &&& Edit::SeparateSel.applies(head + line + tail)
                &&& Edit::SeparateSel.edited(head + line + tail) == head + ";"@ + line + tail
                &&& Edit::SeparateSel.cursor(head + line + tail) == Some(offset + 4)
                &&& Edit::TypeSelfDot.applies(head + line + tail)
                &&& Edit::TypeSelfDot.edited(head + line + tail) == head + "self.;\n"@ + call + tail
                &&& Edit::TypeSelfDot.cursor(head + line + tail) == Some(offset + 5)
            }
        }),
{
    let call = "db.struct_signature(self.id)"@;
    let line = "sel;\ndb.struct_signature(self.id)"@;
    reveal_strlit("db.struct_signature(self.id)");
    reveal_strlit("sel;\ndb.struct_signature(self.id)");
    reveal_strlit(";sel;\ndb.struct_signature(self.id)");
    reveal_strlit("self.;\ndb.struct_signature(self.id)");
    reveal_strlit("self.;\n");
    reveal_strlit(";");
    reveal_strlit("sel");
    reveal_strlit(";sel");
    reveal_strlit("self.");
    assert(";sel;\ndb.struct_signature(self.id)"@ == ";"@ + line);
    assert("self.;\ndb.struct_signature(self.id)"@ == "self.;\n"@ + call);
    if stands_first(head, call, tail) {
        lemma_stands_first(head, call, tail);
        lemma_typed(head, line + tail, 3);
        assert(Edit::TypeSel.edited(head + call + tail) == head + (line + tail));
    }
    if stands_first(head, line, tail) {
        lemma_stands_first(head, line, tail);
        let separated = ";sel;\ndb.struct_signature(self.id)"@ + tail;
        lemma_typed(head, separated, 4);
        assert(Edit::SeparateSel.edited(head + line + tail) == head + separated);
        assert(head + separated == head + ";"@ + line + tail);
        let dotted = "self.;\ndb.struct_signature(self.id)"@ + tail;
        lemma_typed(head, dotted, 5);
        assert(Edit::TypeSelfDot.edited(head + line + tail) == head + dotted);
        assert(head + dotted == head + "self.;\n"@ + call + tail);
    }
}

/// The offset of a cursor behind ASCII text.
proof fn lemma_typed(head: Seq<char>, tail: Seq<char>, width: int)
    requires
        0 <= width <= tail.len(),
        vstd::utf8::is_ascii_chars(tail.take(width)),
    ensures
        byte_offset(head + tail, head.len() + width) == vstd::utf8::encode_utf8(head).len() + width,
{
    let typed = tail.take(width);
    assert((head + tail).take(head.len() + width) == head + typed);
    lemma_encode_concat(head, typed);
    vstd::utf8::is_ascii_chars_encode_utf8(typed);
}

/// An edit can be made exactly where the text that it looks for stands in the
/// file, and where it cannot, the error says what is missing.
pub proof fn law_edits_apply_where_their_text_stands(text: Seq<char>, call: TextRange)
    ensures
        ({
            let signature = "db.struct_signature(self.id)"@;
            let line = "sel;\ndb.struct_signature(self.id)"@;
            let space = Edit::SpaceInBraces { call };
            &&& Edit::TypeSel.applies(text) <==> !stands_nowhere(text, signature)
            &&& Edit::InsertUnit.applies(text) <==> !stands_nowhere(text, signature)
            &&& Edit::SeparateSel.applies(text) <==> !stands_nowhere(text, line)
            &&& Edit::TypeSelfDot.applies(text) <==> !stands_nowhere(text, line)
            &&& space.applies(text) <==> text.contains('{')
            &&& space.error() is NoBrace
            &&& Edit::TypeSel.error() is NoMatch
            &&& Edit::InsertUnit.error() is NoMatch
            &&& Edit::SeparateSel.error() is NoMatch
            &&& Edit::TypeSelfDot.error() is NoMatch
        }),
{
    lemma_stands_nowhere(text, "db.struct_signature(self.id)"@);
    lemma_stands_nowhere(text, "sel;\ndb.struct_signature(self.id)"@);
    lemma_brace(text);
    if text.contains('{') {
        let k = choose|k: int| 0 <= k < text.len() && text[k] == '{';
        assert(occurs_at(text, "{"@, k));
    }
}

/// The space goes behind the first brace in the macro call. Where the call
/// holds none it goes behind the first brace of the file. All else stays, and
/// no cursor is left.
pub proof fn law_the_space_is_behind_a_brace(head: Seq<char>, tail: Seq<char>, call: TextRange)
    ensures
        ({
            let text = head + seq!['{'] + tail;
            let edit = Edit::SpaceInBraces { call };
            let offset = vstd::utf8::encode_utf8(head).len();
            &&& edit.applies(text)
            &&& edit.cursor(text) is None
            &&& call.start <= offset < call.end && (forall|j: int|
                0 <= j < head.len() && #[trigger] head[j] == '{' ==> vstd::utf8::encode_utf8(
                    head.take(j),
                ).len() < call.start) ==> edit.edited(text) == head + seq!['{', ' '] + tail
            &&& !head.contains('{') && (forall|j: int|
                0 <= j < text.len() && #[trigger] text[j] == '{' ==> !(call.start
                    <= vstd::utf8::encode_utf8(text.take(j)).len() < call.end)) ==> edit.edited(
                text,
            ) == head + seq!['{', ' '] + tail
        }),
{
    let text = head + seq!['{'] + tail;
    assert(text[head.len() as int] == '{');
    law_edits_apply_where_their_text_stands(text, call);
    law_where_the_space_goes(head, tail, call);
}

/// `text` with `inserted` in front of its leftmost `call`.
pub open spec fn with_inserted(text: Seq<char>, call: Seq<char>, inserted: Seq<char>) -> Seq<
    char,
> {
    let k = first(text, call);
    text.take(k) + inserted + text.skip(k)
}

/// Lines without a `)` in front of the leftmost call leave it the leftmost one.
proof fn lemma_call_behind_inserted(text: Seq<char>, call: Seq<char>, inserted: Seq<char>)
    requires
        found(text, call),
        call.len() > 0,
        call.last() == ')',
        !call.contains('\n'),
        inserted.len() > 0,
        inserted.last() == '\n',
        !inserted.contains(')'),
    ensures
        first_at(
            with_inserted(text, call, inserted),
            call,
            first(text, call) + inserted.len(),
        ),
{
    lemma_found(text, call);
    let k = first(text, call);
    let after = with_inserted(text, call, inserted);
    let place = k + inserted.len();
    assert(after.subrange(place, place + call.len()) == text.subrange(k, k + call.len()));
    assert forall|j: int| 0 <= j < place implies !occurs_at(after, call, j) by {
        if occurs_at(after, call, j) {
            let end = j + call.len();
            let window = after.subrange(j, end);
            if end <= k {
                assert(text.subrange(j, end) == window);
                assert(occurs_at(text, call, j));
            } else if end >= place {
                assert(window[place - 1 - j] == inserted.last());
                assert(call.contains('\n'));
            } else {
                assert(window[end - 1 - j] == inserted[end - 1 - k]);
                assert(inserted.contains(')'));
            }
        }
    }
}

/// With the call stands the line in front of it.
proof fn lemma_line_and_call(
    text: Seq<char>,
    call: Seq<char>,
    inserted: Seq<char>,
    line: Seq<char>,
)
    requires
        found(text, call),
        call.len() > 0,
        call.last() == ')',
        !call.contains('\n'),
        inserted.len() > 0,
        inserted.last() == '\n',
        !inserted.contains(')'),
        line.len() <= inserted.len(),
        inserted.skip(inserted.len() - line.len()) == line,
    ensures
        first_at(
            with_inserted(text, call, inserted),
            line + call,
            first(text, call) + inserted.len() - line.len(),
        ),
{
    lemma_call_behind_inserted(text, call, inserted);
    lemma_found(text, call);
    let k = first(text, call);
    let after = with_inserted(text, call, inserted);
    let place = k + inserted.len() - line.len();
    let both = line + call;
    assert(after.subrange(place, place + both.len()) == both) by {
        let window = after.subrange(place, place + both.len());
        assert forall|i: int| 0 <= i < line.len() implies window[i] == both[i] by {
            assert(inserted.skip(inserted.len() - line.len())[i] == line[i]);
        }
        assert forall|i: int| line.len() <= i < both.len() implies window[i] == both[i] by {
            assert(text.subrange(k, k + call.len())[i - line.len()] == call[i - line.len()]);
        }
    }
    assert forall|j: int| 0 <= j < place implies !occurs_at(after, both, j) by {
        if occurs_at(after, both, j) {
            let at = j + line.len();
            assert(after.subrange(at, at + call.len()) == call) by {
                assert forall|i: int| 0 <= i < call.len() implies after.subrange(
                    at,
                    at + call.len(),
                )[i] == call[i] by {
                    assert(after.subrange(j, j + both.len())[i + line.len()] == both[i
                        + line.len()]);
                }
            }
            assert(occurs_at(after, call, at));
        }
    }
}

/// The offset of a cursor behind ASCII text that stands in front of the call.
proof fn lemma_cursor(text: Seq<char>, call: Seq<char>, inserted: Seq<char>, width: int)
    requires
        found(text, call),
        0 <= width <= inserted.len(),
        vstd::utf8::is_ascii_chars(inserted),
    ensures
        byte_offset(with_inserted(text, call, inserted), first(text, call) + width) == byte_offset(
            text,
            first(text, call),
        ) + width,
{
    lemma_found(text, call);
    let k = first(text, call);
    let typed = inserted.take(width);
    assert(with_inserted(text, call, inserted).take(k + width) == text.take(k) + typed);
    lemma_encode_concat(text.take(k), typed);
    vstd::utf8::is_ascii_chars_encode_utf8(typed);
}

/// The three edits of the completion benchmark can be made one after the other
/// to every file that holds the call. They build up the line in front of the
/// leftmost call, first `sel;`, next `;sel;`, last `;self.;`, touch nothing
/// else, and leave the cursor behind `sel`, `;sel` and `;self.` in turn.
pub proof fn law_completion_edits_follow_each_other(text: Seq<char>)
    requires
        found(text, "db.struct_signature(self.id)"@),
    ensures
        ({
            let call = "db.struct_signature(self.id)"@;
            let offset = byte_offset(text, first(text, call));
            let text1 = Edit::TypeSel.edited(text);
            let text2 = Edit::SeparateSel.edited(text1);
            let text3 = Edit::TypeSelfDot.edited(text2);
            &&& Edit::TypeSel.applies(text)
            &&& Edit::SeparateSel.applies(text1)
            &&& Edit::TypeSelfDot.applies(text2)
            &&& text1 == with_inserted(text, call, "sel;\n"@)
            &&& text2 == with_inserted(text, call, ";sel;\n"@)
            &&& text3 == with_inserted(text, call, ";self.;\n"@)
            &&& Edit::TypeSel.cursor(text) == Some(offset + 3)
            &&& Edit::SeparateSel.cursor(text1) == Some(offset + 4)
            &&& Edit::TypeSelfDot.cursor(text2) == Some(offset + 6)
        }),
{
    let call = "db.struct_signature(self.id)"@;
    reveal_strlit("db.struct_signature(self.id)");
    reveal_strlit("sel;\n");
    reveal_strlit(";sel;\n");
    reveal_strlit(";self.;\n");
    reveal_strlit("sel;\ndb.struct_signature(self.id)");
    reveal_strlit(";sel;\ndb.struct_signature(self.id)");
    reveal_strlit("self.;\ndb.struct_signature(self.id)");
    reveal_strlit("sel");
    reveal_strlit(";sel");
    reveal_strlit("self.");
    let line = "sel;\n"@;
    let line2 = ";sel;\n"@;
    let line3 = ";self.;\n"@;
    assert("sel;\ndb.struct_signature(self.id)"@ == line + call);
    assert(";sel;\ndb.struct_signature(self.id)"@ == line2 + call);
    assert("self.;\ndb.struct_signature(self.id)"@ == line3.skip(1) + call);
    assert(line2.skip(1) == line);
    assert(line.skip(0) == line);
    let k = first(text, call);
    lemma_found(text, call);
    assert(text.subrange(k, k + call.len()) == call);
    let text1 = with_inserted(text, call, line);
    let text2 = with_inserted(text, call, line2);
    let text3 = with_inserted(text, call, line3);
    assert(text.skip(k) == call + text.skip(k + call.len()));
    assert(Edit::TypeSel.edited(text) == text1);

    lemma_line_and_call(text, call, line, line);
    lemma_first(text1, line + call, k);
    assert(text1.skip(k + 33) == text.skip(k + call.len()));
    assert(text1.take(k) == text.take(k));
    assert(Edit::SeparateSel.edited(text1) == text2);

    lemma_line_and_call(text, call, line2, line);
    lemma_first(text2, line + call, k + 1);
    assert(text2.skip(k + 34) == text.skip(k + call.len()));
    assert(text2.take(k + 1) + line3.skip(1) == text.take(k) + line3);
    assert(Edit::TypeSelfDot.edited(text2) == text3);

    lemma_cursor(text, call, line, 3);
    lemma_cursor(text, call, line2, 4);
    lemma_cursor(text, call, line3, 6);
}

} // verus!
