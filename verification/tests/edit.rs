use analyzer_benches::edit::{Edit, EditError};
use analyzer_benches::text::{contains, patch, TextRange};

const CALL: &str = "db.struct_signature(self.id)";

fn space(start: usize, end: usize) -> Edit {
    Edit::SpaceInBraces { call: TextRange { start, end } }
}

#[test]
fn patch_replaces_the_leftmost_occurrence() {
    let mut text = "a b a b".to_string();
    assert_eq!(patch(&mut text, "b", "xyz"), 2);
    assert_eq!(text, "a xyz a b");
}

#[test]
fn patch_at_both_ends() {
    let mut text = "abc".to_string();
    assert_eq!(patch(&mut text, "a", ""), 0);
    assert_eq!(text, "bc");
    assert_eq!(patch(&mut text, "c", "cd"), 1);
    assert_eq!(text, "bcd");
    assert_eq!(patch(&mut text, "bcd", "e"), 0);
    assert_eq!(text, "e");
}

#[test]
fn patch_with_an_empty_pattern_inserts_in_front() {
    let mut text = "abc".to_string();
    assert_eq!(patch(&mut text, "", "x"), 0);
    assert_eq!(text, "xabc");
    let mut empty = String::new();
    assert_eq!(patch(&mut empty, "", "x"), 0);
    assert_eq!(empty, "x");
}

#[test]
fn patch_counts_bytes() {
    let mut text = "\u{e4}\u{4e16}\u{1f600}b\u{e9}".to_string();
    assert_eq!(patch(&mut text, "b", "\u{e9}"), 9);
    assert_eq!(text, "\u{e4}\u{4e16}\u{1f600}\u{e9}\u{e9}");
    assert_eq!(patch(&mut text, "\u{4e16}", ""), 2);
    assert_eq!(text, "\u{e4}\u{1f600}\u{e9}\u{e9}");
}

#[test]
fn patch_agrees_with_find_and_replacen() {
    for text in ["aab", "aaab", "abababc", "\u{e4}ab\u{e4}ab", "aaaa", "x\ny\nx"] {
        for from in ["a", "aab", "abc", "\u{e4}", "aa", "x", "y\nx", ""] {
            assert_eq!(contains(text, from), text.contains(from));
            if let Some(at) = text.find(from) {
                let mut patched = text.to_string();
                assert_eq!(patch(&mut patched, from, "<>"), at);
                assert_eq!(patched, text.replacen(from, "<>", 1));
            }
        }
    }
}

#[test]
fn patching_back_undoes() {
    let mut text = "one two three".to_string();
    assert_eq!(patch(&mut text, "two", "2"), 4);
    assert_eq!(patch(&mut text, "2", "two"), 4);
    assert_eq!(text, "one two three");
}

#[test]
fn contains_needs_the_whole_pattern() {
    assert!(contains("abc", "bc"));
    assert!(!contains("abc", "bcd"));
    assert!(!contains("", "a"));
    assert!(contains("", ""));
}

#[test]
fn respacing_goes_everywhere() {
    let field = "self.data.cargo_buildScripts_rebuildOnSave";
    let mut text = format!("if {field} {{ {field}{field} }} self.data.other");
    assert_eq!(Edit::RespaceField.apply(&mut text), Ok(None));
    let spaced = "self. data. cargo_buildScripts_rebuildOnSave";
    assert_eq!(text, format!("if {spaced} {{ {spaced}{spaced} }} self.data.other"));
}

#[test]
fn respacing_needs_no_occurrence() {
    let mut text = "fn main() {}".to_string();
    assert_eq!(Edit::RespaceField.apply(&mut text), Ok(None));
    assert_eq!(text, "fn main() {}");
}

#[test]
fn respacing_changes_spaces_alone() {
    let before = "x { self.data.cargo_buildScripts_rebuildOnSave } y".to_string();
    for edit in [Edit::RespaceField, space(1, 50), space(9, 12)] {
        let mut after = before.clone();
        assert_eq!(edit.apply(&mut after), Ok(None));
        assert_ne!(after, before);
        assert_eq!(after.replace(' ', ""), before.replace(' ', ""));
    }
}

#[test]
fn completion_edits_follow_each_other() {
    for head in ["", "fn f() {\n    ", "sel;\n", "\u{4e16} sel;", "db.struct_signature(self.i", "(self.id)"] {
        for tail in ["", ".name\n}\n", "; db.struct_signature(self.id)"] {
            let n = head.len();
            let mut text = format!("{head}{CALL}{tail}");
            assert_eq!(Edit::TypeSel.apply(&mut text), Ok(Some(n + 3)));
            assert_eq!(text, format!("{head}sel;\n{CALL}{tail}"));
            assert_eq!(Edit::SeparateSel.apply(&mut text), Ok(Some(n + 4)));
            assert_eq!(text, format!("{head};sel;\n{CALL}{tail}"));
            assert_eq!(Edit::TypeSelfDot.apply(&mut text), Ok(Some(n + 6)));
            assert_eq!(text, format!("{head};self.;\n{CALL}{tail}"));
            assert!(text[..n + 6].ends_with(";self."));
        }
    }
}

#[test]
fn unit_statement_goes_in_front_of_the_call() {
    let mut text = format!("let a = {CALL};");
    assert_eq!(Edit::InsertUnit.apply(&mut text), Ok(None));
    assert_eq!(text, format!("let a = ();\n{CALL};"));
}

#[test]
fn space_goes_behind_the_first_brace_of_the_call() {
    for (start, after) in [
        (0, "a { b {c}"),
        (2, "a { b {c}"),
        (3, "a {b { c}"),
        (5, "a {b { c}"),
    ] {
        for end in [6, 8, usize::MAX] {
            let mut text = "a {b {c}".to_string();
            assert_eq!(space(start, end).apply(&mut text), Ok(None));
            assert_eq!(text, after);
        }
    }
}

#[test]
fn a_call_without_a_brace_gives_way_to_the_first_brace_of_the_file() {
    for (src, call, after) in [
        ("fn a() {} m!(x);", "m!(x)", "fn a() { } m!(x);"),
        ("m!(x); fn b() {}", "m!(x)", "m!(x); fn b() { }"),
        ("a {} m!(x); b {}", "m!(x)", "a { } m!(x); b {}"),
        ("a {} m!{x}; b {}", "m!{x}", "a {} m!{ x}; b {}"),
        ("\u{4e16}{} m!(x){", "m!(x)", "\u{4e16}{ } m!(x){"),
    ] {
        let start = src.find(call).unwrap();
        let mut text = src.to_string();
        assert_eq!(space(start, start + call.len()).apply(&mut text), Ok(None));
        assert_eq!(text, after);
    }
}

#[test]
fn the_call_is_found_by_its_byte_offset() {
    let src = "\u{e4}{\u{4e16}{\u{1f600}{";
    for (start, after) in [
        (2, "\u{e4}{ \u{4e16}{\u{1f600}{"),
        (3, "\u{e4}{\u{4e16}{ \u{1f600}{"),
        (6, "\u{e4}{\u{4e16}{ \u{1f600}{"),
        (7, "\u{e4}{\u{4e16}{\u{1f600}{ "),
        (11, "\u{e4}{\u{4e16}{\u{1f600}{ "),
    ] {
        let mut text = src.to_string();
        assert_eq!(space(start, src.len()).apply(&mut text), Ok(None));
        assert_eq!(text, after);
    }
    for (start, end) in [(12, 20), (3, 6), (7, 11), (9, 2), (usize::MAX, usize::MAX)] {
        let mut text = src.to_string();
        assert_eq!(space(start, end).apply(&mut text), Ok(None));
        assert_eq!(text, "\u{e4}{ \u{4e16}{\u{1f600}{");
    }
}

#[test]
fn edits_that_do_not_apply_change_nothing() {
    for edit in [Edit::TypeSel, Edit::SeparateSel, Edit::TypeSelfDot, Edit::InsertUnit] {
        let mut text = "fn main() {}".to_string();
        assert_eq!(edit.apply(&mut text), Err(EditError::NoMatch));
        assert_eq!(text, "fn main() {}");
    }
    for (src, start, end) in [("mod a;", 0, 6), ("m!(x)", 0, 5), ("", 0, 0), ("}", 0, 1)] {
        let mut text = src.to_string();
        assert_eq!(space(start, end).apply(&mut text), Err(EditError::NoBrace));
        assert_eq!(text, src);
    }
}
