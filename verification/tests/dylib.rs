use analyzer_benches::dylib::{
    bang_macro_name, build_profiles, find_slint_dylib, Artifact, Platform, ProcMacroKind,
};

fn artifact(name: &str, modified: Option<i128>) -> Artifact {
    Artifact { name: name.to_string(), modified }
}

fn entry(name: &str, kind: ProcMacroKind) -> (String, ProcMacroKind) {
    (name.to_string(), kind)
}

#[test]
fn newest_build_is_picked() {
    let files = vec![
        artifact("libslint_macros-1.so", Some(10)),
        artifact("libslint_macros-2.so", Some(30)),
        artifact("libslint_macros-3.so", Some(-5)),
        artifact("libother.so", Some(99)),
        artifact("libslint_macros-4.rmeta", Some(99)),
        artifact("libslint_macros-5.so", None),
    ];
    assert_eq!(find_slint_dylib(&files, Platform::Other), Some(1));
}

#[test]
fn last_of_equally_new_builds_is_picked() {
    let files = vec![
        artifact("libslint_macros-1.so", Some(10)),
        artifact("libslint_macros-2.so", Some(10)),
        artifact("libslint_macros-3.so", Some(9)),
    ];
    assert_eq!(find_slint_dylib(&files, Platform::Other), Some(1));
}

#[test]
fn names_go_by_platform() {
    let files = vec![
        artifact("libslint_macros-1.so", Some(1)),
        artifact("libslint_macros-1.dylib", Some(1)),
        artifact("slint_macros-1.dll", Some(1)),
        artifact("libslint_macros-1.dll", Some(1)),
    ];
    assert_eq!(find_slint_dylib(&files, Platform::Other), Some(0));
    assert_eq!(find_slint_dylib(&files, Platform::MacOs), Some(1));
    assert_eq!(find_slint_dylib(&files, Platform::Windows), Some(2));
}

#[test]
fn nothing_built() {
    assert_eq!(find_slint_dylib(&vec![], Platform::Other), None);
    let files = vec![artifact("slint_macros.so", Some(1)), artifact("lib", Some(1))];
    assert_eq!(find_slint_dylib(&files, Platform::Other), None);
}

#[test]
fn overlapping_prefix_and_extension() {
    let files = vec![artifact("libslint_macroso", Some(1)), artifact("so", Some(2))];
    assert_eq!(find_slint_dylib(&files, Platform::Other), Some(0));
}

#[test]
fn debug_is_searched_first() {
    assert_eq!(build_profiles(), ["debug", "release"]);
}

#[test]
fn slint_is_preferred() {
    let macros = vec![
        entry("slint", ProcMacroKind::Attr),
        entry("other", ProcMacroKind::Bang),
        entry("slint", ProcMacroKind::Bang),
    ];
    assert_eq!(bang_macro_name(&macros), Some("slint".to_string()));
}

#[test]
fn first_bang_macro_stands_in() {
    let macros = vec![
        entry("slint", ProcMacroKind::CustomDerive),
        entry("one", ProcMacroKind::Bang),
        entry("two", ProcMacroKind::Bang),
    ];
    assert_eq!(bang_macro_name(&macros), Some("one".to_string()));
}

#[test]
fn no_bang_macro() {
    let macros = vec![entry("slint", ProcMacroKind::Attr)];
    assert_eq!(bang_macro_name(&macros), None);
    assert_eq!(bang_macro_name(&vec![]), None);
}
