use analyzer_benches::edit::Edit;
use analyzer_benches::macro_body::{check_macro_body, extract_macro_body, MacroBodyError};
use analyzer_benches::text::TextRange;

fn body(src: &str) -> Result<String, MacroBodyError> {
    match check_macro_body(src) {
        Ok(()) => Ok(extract_macro_body(src)),
        Err(e) => Err(e),
    }
}

#[test]
fn body_between_outermost_braces() {
    let src = "slint::slint! { export component A { } }\nfn main() {}\n";
    assert_eq!(body(src), Ok(" export component A { } ".to_string()));
}

#[test]
fn empty_body() {
    assert_eq!(body("slint!{}"), Ok(String::new()));
}

#[test]
fn first_invocation_is_taken() {
    assert_eq!(body("slint!{a} slint!{b}"), Ok("a".to_string()));
}

#[test]
fn braces_before_the_invocation_do_not_count() {
    assert_eq!(body("use a::{b, c};\nslint! { x }"), Ok(" x ".to_string()));
}

#[test]
fn text_between_name_and_brace_is_skipped() {
    assert_eq!(body("slint! \"never closed {x}"), Ok("x".to_string()));
}

#[test]
fn no_invocation() {
    assert_eq!(body("fn main() {}"), Err(MacroBodyError::NoInvocation));
    assert_eq!(body("slint {}"), Err(MacroBodyError::NoInvocation));
    assert_eq!(body(""), Err(MacroBodyError::NoInvocation));
}

#[test]
fn no_opening_brace() {
    assert_eq!(body("fn f() {} slint!(a)"), Err(MacroBodyError::NoOpeningBrace));
}

#[test]
fn unbalanced_braces() {
    assert_eq!(body("slint! { a { b }"), Err(MacroBodyError::Unbalanced));
    assert_eq!(body("slint! { \"}"), Err(MacroBodyError::Unbalanced));
    assert_eq!(body("slint! { // }"), Err(MacroBodyError::Unbalanced));
    assert_eq!(body("slint! { 'x\\"), Err(MacroBodyError::Unbalanced));
}

#[test]
fn braces_in_string_literals_are_skipped() {
    assert_eq!(body("slint! { text: \"}}{\"; }"), Ok(" text: \"}}{\"; ".to_string()));
}

#[test]
fn escaped_quotes_do_not_end_a_literal() {
    assert_eq!(body(r#"slint!{"\"}"}"#), Ok(r#""\"}""#.to_string()));
    assert_eq!(body(r#"slint!{"\\"}}"#), Ok(r#""\\""#.to_string()));
    assert_eq!(body("slint!{'\\'}'}"), Ok("'\\'}'".to_string()));
}

#[test]
fn escaped_wide_characters_are_skipped_whole() {
    assert_eq!(body("slint!{\"\\\u{1f600}}\"}"), Ok("\"\\\u{1f600}}\"".to_string()));
}

#[test]
fn braces_in_character_literals_are_skipped() {
    assert_eq!(body("slint!{'}' '{'}"), Ok("'}' '{'".to_string()));
}

#[test]
fn quotes_of_the_other_kind_are_plain() {
    assert_eq!(body("slint!{\"'\" }"), Ok("\"'\" ".to_string()));
    assert_eq!(body("slint!{'\"' }"), Ok("'\"' ".to_string()));
}

#[test]
fn braces_in_line_comments_are_skipped() {
    assert_eq!(body("slint!{ // }}} \"\n x }"), Ok(" // }}} \"\n x ".to_string()));
}

#[test]
fn single_slashes_are_plain() {
    assert_eq!(body("slint!{ 1/2 }"), Ok(" 1/2 ".to_string()));
    assert_eq!(body("slint!{/}/}"), Ok("/".to_string()));
}

#[test]
fn block_comments_are_not_skipped() {
    assert_eq!(body("slint!{/* } */}"), Ok("/* ".to_string()));
}

#[test]
fn wide_characters_around_the_body() {
    assert_eq!(body("// \u{e4}\u{4e16}\nslint!{\u{e9} {\u{1f600}} }\u{e4}"), Ok("\u{e9} {\u{1f600}} ".to_string()));
}

#[test]
fn literals_with_escapes_are_whole_bodies() {
    for literal in [r#""}""#, r#""\"}""#, r#""\\""#, r#""a\{b\\\"}c""#, r"'\''", r"'\}'"] {
        assert_eq!(body(&format!("slint!{{{literal}}}")), Ok(literal.to_string()));
    }
}

#[test]
fn wrapping_is_undone() {
    for inner in ["", " a { b } ", "\"}\"", "// }\n", "{{}}{}", "'{'"] {
        let src = format!("pub mod m;\nslint! {{{inner}}} tail }}");
        assert_eq!(body(&src), Ok(inner.to_string()));
        let again = format!("slint!{{{}}}", body(&src).unwrap());
        assert_eq!(body(&again), Ok(inner.to_string()));
    }
}

#[test]
fn joined_and_nested_bodies_stay_whole() {
    for a in ["", "{x}", "\"}\"", "// }\n", "/"] {
        for b in ["y", "{ '}' }", "\"{\""] {
            assert_eq!(body(&format!("slint!{{{a}{b}}}")), Ok(format!("{a}{b}")));
            assert_eq!(body(&format!("slint!{{{{{a}}}{b}}}")), Ok(format!("{{{a}}}{b}")));
        }
    }
    // Two slashes that meet begin a comment.
    assert_eq!(body("slint!{//}"), Err(MacroBodyError::Unbalanced));
}

fn spaced(src: &str, start: usize, end: usize) -> String {
    let mut text = src.to_string();
    assert_eq!(Edit::SpaceInBraces { call: TextRange { start, end } }.apply(&mut text), Ok(None));
    text
}

#[test]
fn space_edit_lands_in_the_body() {
    for head in ["", "use a::{b};\n", "fn f() { \u{4e16} }\n", "{{{"] {
        for path in ["", "slint::", "::slint::"] {
            let call = format!("{path}slint! {{component A {{ \"{{\" }} }}");
            let src = format!("{head}{call}\nfn main() {{}}");
            let before = body(&src).unwrap();
            let end = head.len() + call.len();
            for start in [head.len(), head.len() + path.len()] {
                assert_eq!(body(&spaced(&src, start, end)).unwrap(), format!(" {before}"));
            }
        }
    }
}

#[test]
fn space_edit_passes_over_braces_in_front_of_the_call() {
    assert_eq!(spaced("a{b}slint!{c}", 4, 13), "a{b}slint!{ c}");
    assert_eq!(spaced("use a::{b};\nslint! {c}", 12, 22), "use a::{b};\nslint! { c}");
}

#[test]
fn comments_hold_no_invocation() {
    assert_eq!(body("// slint! {no}\nslint! {yes}"), Ok("yes".to_string()));
    assert_eq!(body("/// don't slint! {no}\n//! slint! {no}\nslint! {yes}"), Ok("yes".to_string()));
    assert_eq!(body("/* slint! {no} */ slint! {yes}"), Ok("yes".to_string()));
    assert_eq!(body("/* 6\" /* slint! {no} */ ' slint! {no} */slint! {yes}"), Ok("yes".to_string()));
    assert_eq!(body("/* slint! {no} */ /* slint! {no} */ x/slint! {yes}"), Ok("yes".to_string()));
}

#[test]
fn literals_hold_no_invocation() {
    for literal in [
        r#""slint! {no}""#,
        r#""\"slint! {no}""#,
        r#"b"\\" "// slint! {no}""#,
        r##"r"\" "slint! {no}""##,
        r###"r#"" slint! {no} "#"###,
        r####"br##"slint! {no} "# {no}"##"####,
        r#"'"' "slint! {no}""#,
        r#"'\'' "slint! {no}" '\u{1f600}'"#,
    ] {
        assert_eq!(body(&format!("{literal} slint! {{yes}}")), Ok("yes".to_string()));
        assert_eq!(body(&format!("f({literal});\nslint! {{yes}}")), Ok("yes".to_string()));
    }
}

#[test]
fn lifetimes_open_no_literal() {
    for head in [
        "fn f<'a>() {}\n",
        "fn f<'a, 'b>(x: &'a str) -> &'b str {}\n",
        "static S: &'static str = \"x\";\n",
        "fn f() { 'outer: loop {} }\n",
        "const Q: char = '\"';\n",
        "const B: char = '\\\\';\n",
        "fn r#type() { for _ in 0..1 {} }\n",
        "#[attr] #![r##]\n",
        "/",
        "'",
        "r",
    ] {
        assert_eq!(body(&format!("{head}slint! {{yes}}\n\"slint! {{no}}")), Ok("yes".to_string()));
    }
}

#[test]
fn without_an_invocation_in_code_the_first_text_counts() {
    assert_eq!(body("// slint! {a}\n// slint! {b}\n"), Ok("a".to_string()));
    assert_eq!(body("\"slint! {a}\""), Ok("a".to_string()));
    assert_eq!(body("// slint!\nfn main() {}"), Ok(String::new()));
    assert_eq!(body("// slint!"), Err(MacroBodyError::NoOpeningBrace));
    assert_eq!(body("// slint! {"), Err(MacroBodyError::Unbalanced));
}

#[test]
fn the_space_edit_changes_the_body_of_the_invocation() {
    let src = "// slint! {no}\nslint! {yes}";
    let after = spaced(src, 15, src.len());
    assert_eq!(after, "// slint! {no}\nslint! { yes}");
    assert_eq!(body(&after), Ok(" yes".to_string()));
}
