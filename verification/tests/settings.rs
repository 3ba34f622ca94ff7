use analyzer_benches::config::{
    completion_config, diagnostics_config, CallableSnippets, ImportGranularity, InsertUseConfig,
    PrefixKind, ServerDefault,
};
use analyzer_benches::imports::import_cases;
use analyzer_benches::macro_body::{check_macro_body, extract_macro_body};
use analyzer_benches::settings::{env_or, parse_u32, project_dir, testcase_file, SlintBenchmark};

fn set(value: &str) -> Option<String> {
    Some(value.to_string())
}

#[test]
fn unset_variables_fall_back() {
    assert_eq!(env_or(set("a"), "b"), "a");
    assert_eq!(env_or(set(""), "b"), "");
    assert_eq!(env_or(None, "b"), "b");
    assert_eq!(testcase_file(None), "src/lib.rs");
    assert_eq!(testcase_file(set("src/ui.rs")), "src/ui.rs");
}

#[test]
fn project_below_home() {
    assert_eq!(project_dir(set("/t"), set("/home/u")), set("/t"));
    assert_eq!(project_dir(set("/t"), None), set("/t"));
    assert_eq!(
        project_dir(None, set("/home/u")),
        set("/home/u/Code/slint-ra-testcases/crates/size_xlarge")
    );
    assert_eq!(project_dir(None, None), None);
}

#[test]
fn iterations_by_default() {
    assert_eq!(SlintBenchmark::ServerSideExpansion.iterations(None), Some(50));
    assert_eq!(SlintBenchmark::ImportCost.iterations(None), Some(40));
    assert_eq!(SlintBenchmark::ImportCost.iterations(set("200")), Some(200));
    assert_eq!(SlintBenchmark::ImportCost.iterations(set("many")), None);
}

#[test]
fn numbers_are_read_as_std_reads_them() {
    for text in [
        "", "0", "7", "50", "007", "+", "+5", "++5", "-1", "-0", " 5", "5 ", "5a", "4294967295",
        "4294967296", "00000000004294967295", "99999999999", "\u{661}", "1_000", "0x10", "5+",
    ] {
        assert_eq!(parse_u32(text), text.parse::<u32>().ok(), "{text:?}");
    }
}

#[test]
fn import_cases_differ_by_the_import() {
    let cases = import_cases();
    let import = "import { Button, Slider, ComboBox, CheckBox, LineEdit, ProgressIndicator, \
         VerticalBox, HorizontalBox, GroupBox, TabWidget } from \"std-widgets.slint\";";
    assert_eq!(cases.len(), 3);
    assert_eq!(cases[0].label, "no-import    ");
    assert_eq!(cases[0].body, "export component Bench { Rectangle { width: 10px; } }");
    assert_eq!(cases[1].label, "import-unused");
    assert_eq!(cases[1].body, format!("{import}\n{}", cases[0].body));
    assert_eq!(cases[2].label, "import-used  ");
    assert_eq!(
        cases[2].body,
        format!("{import}\nexport component Bench {{ VerticalBox {{ Button {{ text: \"x\"; }} }} }}")
    );
}

#[test]
fn import_cases_are_macro_bodies() {
    for case in import_cases() {
        let src = format!("slint!{{{}}}", case.body);
        assert_eq!(check_macro_body(&src), Ok(()));
        assert_eq!(extract_macro_body(&src), case.body);
    }
}

#[test]
fn completion_settings() {
    let config = completion_config();
    assert!(config.enable_postfix_completions);
    assert!(config.enable_imports_on_the_fly);
    assert!(config.enable_self_on_the_fly);
    assert!(config.enable_private_editable);
    assert!(config.enable_term_search);
    assert_eq!(config.term_search_fuel, 200);
    assert!(!config.full_function_signatures);
    assert_eq!(config.callable, Some(CallableSnippets::FillArguments));
    assert!(config.snippet_cap);
    assert_eq!(
        config.insert_use,
        InsertUseConfig {
            granularity: ImportGranularity::Crate,
            prefix_kind: PrefixKind::ByCrate,
            enforce_granularity: true,
            group: true,
            skip_glob_imports: true,
        }
    );
    assert!(!config.prefer_no_std);
    assert!(config.prefer_prelude);
    assert!(!config.prefer_absolute);
    assert!(config.snippets.is_empty());
    assert_eq!(config.limit, None);
    assert!(config.add_colons_to_module);
    assert!(config.add_semicolon_to_unit);
    assert!(config.fields_to_resolve.is_empty());
    assert!(config.exclude_flyimport.is_empty());
    assert!(config.exclude_traits.is_empty());
    assert!(config.enable_auto_await);
    assert!(config.enable_auto_iter);
    assert_eq!(config.ra_fixture, ServerDefault::Unchanged);
}

#[test]
fn diagnostics_settings() {
    let config = diagnostics_config();
    assert!(!config.enabled);
    assert!(config.proc_macros_enabled);
    assert!(config.proc_attr_macros_enabled);
    assert!(config.disable_experimental);
    assert!(config.disabled.is_empty());
    assert_eq!(config.expr_fill_default, ServerDefault::Unchanged);
    assert!(!config.style_lints);
    assert!(config.snippet_cap);
    assert_eq!(
        config.insert_use,
        InsertUseConfig {
            granularity: ImportGranularity::Crate,
            prefix_kind: PrefixKind::ByCrate,
            enforce_granularity: false,
            group: true,
            skip_glob_imports: true,
        }
    );
    assert!(!config.prefer_no_std);
    assert!(!config.prefer_prelude);
    assert!(!config.prefer_absolute);
    assert_eq!(config.term_search_fuel, 400);
    assert!(config.term_search_borrowck);
    assert!(config.show_rename_conflicts);
}
