//! The settings that the benchmarks run the language server with.

use vstd::prelude::*;

verus! {

/// Where the standard library's sources come from.
#[derive(Clone, Copy, Debug, PartialEq, Eq, Structural)]
pub enum RustLibSource {
    Discover,
}

/// How the project is read. What is not named here stays at its default.
#[derive(Clone, Copy, Debug, PartialEq, Eq, Structural)]
pub struct CargoConfig {
    pub sysroot: Option<RustLibSource>,
    pub all_targets: bool,
    pub set_test: bool,
}

/// Which server expands procedural macros.
#[derive(Clone, Copy, Debug, PartialEq, Eq, Structural)]
pub enum ProcMacroServerChoice {
    Sysroot,
}

/// How the workspace is loaded.
#[derive(Clone, Copy, Debug, PartialEq, Eq, Structural)]
pub struct LoadCargoConfig {
    pub load_out_dirs_from_check: bool,
    pub with_proc_macro_server: ProcMacroServerChoice,
    pub prefill_caches: bool,
    pub num_worker_threads: usize,
    pub proc_macro_processes: usize,
}

/// How far inserted imports are merged.
#[derive(Clone, Copy, Debug, PartialEq, Eq, Structural)]
pub enum ImportGranularity {
    Crate,
}

/// What inserted import paths begin with.
#[derive(Clone, Copy, Debug, PartialEq, Eq, Structural)]
pub enum PrefixKind {
    ByCrate,
}

/// How imports are inserted.
#[derive(Clone, Copy, Debug, PartialEq, Eq, Structural)]
pub struct InsertUseConfig {
    pub granularity: ImportGranularity,
    pub prefix_kind: PrefixKind,
    pub enforce_granularity: bool,
    pub group: bool,
    pub skip_glob_imports: bool,
}

/// What a completed call is filled in with.
#[derive(Clone, Copy, Debug, PartialEq, Eq, Structural)]
pub enum CallableSnippets {
    FillArguments,
}

/// A setting that is left at the language server's own default.
#[derive(Clone, Copy, Debug, PartialEq, Eq, Structural)]
pub enum ServerDefault {
    Unchanged,
}

/// What completions are computed with.
#[derive(Debug, PartialEq, Eq)]
pub struct CompletionConfig {
    pub enable_postfix_completions: bool,
    pub enable_imports_on_the_fly: bool,
    pub enable_self_on_the_fly: bool,
    pub enable_private_editable: bool,
    pub enable_term_search: bool,
    pub term_search_fuel: u64,
    pub full_function_signatures: bool,
    pub callable: Option<CallableSnippets>,
    /// The client takes snippets.
    pub snippet_cap: bool,
    pub insert_use: InsertUseConfig,
    pub prefer_no_std: bool,
    pub prefer_prelude: bool,
    pub prefer_absolute: bool,
    /// The names of the user's own snippets.
    pub snippets: Vec<String>,
    pub limit: Option<usize>,
    pub add_colons_to_module: bool,
    pub add_semicolon_to_unit: bool,
    /// The names of the fields that are filled in later, on request.
    pub fields_to_resolve: Vec<String>,
    pub exclude_flyimport: Vec<String>,
    pub exclude_traits: Vec<String>,
    pub enable_auto_await: bool,
    pub enable_auto_iter: bool,
    pub ra_fixture: ServerDefault,
}

/// What diagnostics are computed with.
#[derive(Debug, PartialEq, Eq)]
pub struct DiagnosticsConfig {
    pub enabled: bool,
    pub proc_macros_enabled: bool,
    pub proc_attr_macros_enabled: bool,
    pub disable_experimental: bool,
    /// The names of the diagnostics that are switched off.
    pub disabled: Vec<String>,
    pub expr_fill_default: ServerDefault,
    pub style_lints: bool,
    /// The client takes snippets.
    pub snippet_cap: bool,
    pub insert_use: InsertUseConfig,
    pub prefer_no_std: bool,
    pub prefer_prelude: bool,
    pub prefer_absolute: bool,
    pub term_search_fuel: u64,
    pub term_search_borrowck: bool,
    pub show_rename_conflicts: bool,
}

impl CargoConfig {
    /// The one configuration that every benchmark reads its project with: all
    /// targets, tests included, against a standard library found by itself.
    pub open spec fn spec_benchmark() -> CargoConfig {
        CargoConfig {
            sysroot: Some(RustLibSource::Discover),
            all_targets: true,
            set_test: true,
        }
    }

    /// The one configuration that every benchmark reads its project with.
    #[verifier::when_used_as_spec(spec_benchmark)]
    pub fn benchmark() -> (config: CargoConfig)
        ensures
            config == CargoConfig::spec_benchmark(),
    {
        CargoConfig {
            sysroot: Some(RustLibSource::Discover),
            all_targets: true,
            set_test: true,
        }
    }
}

impl LoadCargoConfig {
    /// One thread and one macro server, so that runs can be compared. Whether
    /// caches are filled beforehand is up to the benchmark.
    pub open spec fn spec_benchmark(prefill_caches: bool) -> LoadCargoConfig {
        LoadCargoConfig {
            load_out_dirs_from_check: true,
            with_proc_macro_server: ProcMacroServerChoice::Sysroot,
            prefill_caches,
            num_worker_threads: 1,
            proc_macro_processes: 1,
        }
    }

    /// One thread and one macro server, so that runs can be compared.
    #[verifier::when_used_as_spec(spec_benchmark)]
    pub fn benchmark(prefill_caches: bool) -> (config: LoadCargoConfig)
        ensures
            config == LoadCargoConfig::spec_benchmark(prefill_caches),
    {
        LoadCargoConfig {
            load_out_dirs_from_check: true,
            with_proc_macro_server: ProcMacroServerChoice::Sysroot,
            prefill_caches,
            num_worker_threads: 1,
            proc_macro_processes: 1,
        }
    }
}

/// What the completion benchmark computes completions with.
pub fn completion_config() -> (config: CompletionConfig)
    ensures
        config.enable_postfix_completions,
        config.enable_imports_on_the_fly,
        config.enable_self_on_the_fly,
        config.enable_private_editable,
        config.enable_term_search,
        config.term_search_fuel == 200,
        !config.full_function_signatures,
        config.callable == Some(CallableSnippets::FillArguments),
        config.snippet_cap,
        config.insert_use == (InsertUseConfig {
            granularity: ImportGranularity::Crate,
            prefix_kind: PrefixKind::ByCrate,
            enforce_granularity: true,
            group: true,
            skip_glob_imports: true,
        }),
        !config.prefer_no_std,
        config.prefer_prelude,
        !config.prefer_absolute,
        config.snippets@ == Seq::<String>::empty(),
        config.limit == None::<usize>,
        config.add_colons_to_module,
        config.add_semicolon_to_unit,
        config.fields_to_resolve@ == Seq::<String>::empty(),
        config.exclude_flyimport@ == Seq::<String>::empty(),
        config.exclude_traits@ == Seq::<String>::empty(),
        config.enable_auto_await,
        config.enable_auto_iter,
        config.ra_fixture == ServerDefault::Unchanged,
{
    CompletionConfig {
        enable_postfix_completions: true,
        enable_imports_on_the_fly: true,
        enable_self_on_the_fly: true,
        enable_private_editable: true,
        enable_term_search: true,
        term_search_fuel: 200,
        full_function_signatures: false,
        callable: Some(CallableSnippets::FillArguments),
        snippet_cap: true,
        insert_use: InsertUseConfig {
            granularity: ImportGranularity::Crate,
            prefix_kind: PrefixKind::ByCrate,
            enforce_granularity: true,
            group: true,
            skip_glob_imports: true,
        },
        prefer_no_std: false,
        prefer_prelude: true,
        prefer_absolute: false,
        snippets: Vec::new(),
        limit: None,
        add_colons_to_module: true,
        add_semicolon_to_unit: true,
        fields_to_resolve: Vec::new(),
        exclude_flyimport: Vec::new(),
        exclude_traits: Vec::new(),
        enable_auto_await: true,
        enable_auto_iter: true,
        ra_fixture: ServerDefault::Unchanged,
    }
}

/// What the diagnostics benchmark computes diagnostics with.
pub fn diagnostics_config() -> (config: DiagnosticsConfig)
    ensures
        !config.enabled,
        config.proc_macros_enabled,
        config.proc_attr_macros_enabled,
        config.disable_experimental,
        config.disabled@ == Seq::<String>::empty(),
        config.expr_fill_default == ServerDefault::Unchanged,
        !config.style_lints,
        config.snippet_cap,
        config.insert_use == (InsertUseConfig {
            granularity: ImportGranularity::Crate,
            prefix_kind: PrefixKind::ByCrate,
            enforce_granularity: false,
            group: true,
            skip_glob_imports: true,
        }),
        !config.prefer_no_std,
        !config.prefer_prelude,
        !config.prefer_absolute,
        config.term_search_fuel == 400,
        config.term_search_borrowck,
        config.show_rename_conflicts,
{
    DiagnosticsConfig {
        enabled: false,
        proc_macros_enabled: true,
        proc_attr_macros_enabled: true,
        disable_experimental: true,
        disabled: Vec::new(),
        expr_fill_default: ServerDefault::Unchanged,
        style_lints: false,
        snippet_cap: true,
        insert_use: InsertUseConfig {
            granularity: ImportGranularity::Crate,
            prefix_kind: PrefixKind::ByCrate,
            enforce_granularity: false,
            group: true,
            skip_glob_imports: true,
        },
        prefer_no_std: false,
        prefer_prelude: false,
        prefer_absolute: false,
        term_search_fuel: 400,
        term_search_borrowck: true,
        show_rename_conflicts: true,
    }
}

} // verus!
