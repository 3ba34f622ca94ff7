use analyzer_benches::config::{CargoConfig, LoadCargoConfig, ProcMacroServerChoice, RustLibSource};
use analyzer_benches::edit::{Edit, EditError};
use analyzer_benches::host::{
    expand_proc_macros_in, file_id, first_expanded, FileExcluded, FileId, SyntaxNode,
};
use analyzer_benches::plan::{Benchmark, FileRef, Pass, Step, Work, Workspace};
use analyzer_benches::runner::{text_size, Action, Failure, Reply, Runner};
use analyzer_benches::text::TextRange;

const ALL: [Benchmark; 4] = [
    Benchmark::Highlighting,
    Benchmark::Completion,
    Benchmark::Diagnostics,
    Benchmark::MacroExpansion,
];

fn range(start: usize, end: usize) -> TextRange {
    TextRange { start, end }
}

fn call(proc_macro: bool, start: usize, end: usize, expansion: Option<usize>) -> SyntaxNode {
    SyntaxNode::MacroCall { proc_macro, range: range(start, end), expansion }
}

/// A server that holds one file and logs what it is asked for.
struct Server {
    lookup: Option<(FileId, FileExcluded)>,
    text: String,
    nodes: Vec<SyntaxNode>,
    log: Vec<String>,
}

impl Server {
    fn new(text: &str) -> Server {
        Server {
            lookup: Some((FileId(7), FileExcluded::No)),
            text: text.to_string(),
            nodes: vec![call(true, 0, text.len(), Some(1))],
            log: Vec::new(),
        }
    }

    fn run(&mut self, benchmark: Benchmark) -> Result<(), Failure> {
        let (mut runner, mut action) = Runner::start(benchmark, true).unwrap();
        loop {
            let reply = match action {
                Action::Load { workspace, load, timed, .. } => {
                    self.log.push(format!("{timed}: {workspace:?} {}", load.prefill_caches));
                    Reply::Done
                }
                Action::LookUp(FileRef::Own(path)) => {
                    self.log.push(format!("find {path}"));
                    Reply::LookedUp(self.lookup)
                }
                Action::LookUp(FileRef::Testcase) => {
                    self.log.push("find testcase".to_string());
                    Reply::LookedUp(self.lookup)
                }
                Action::Analyse { file, measured } => {
                    assert_eq!(file, FileId(7));
                    self.log.push(format!(
                        "{:?} {:?} {:?} {}",
                        measured.work, measured.timed, measured.span, measured.cpu_span
                    ));
                    match measured.work {
                        Work::Expand(_) => Reply::Expanded {
                            count: expand_proc_macros_in(&self.nodes),
                            first: first_expanded(&self.nodes),
                        },
                        _ => Reply::Done,
                    }
                }
                Action::Complete { file, offset, measured } => {
                    assert_eq!(file, FileId(7));
                    assert!(measured.cpu_span);
                    let cut = &self.text[..offset as usize];
                    let typed = cut.rsplit('\n').next().unwrap();
                    self.log.push(format!("complete {typed} {:?}", measured.span));
                    Reply::Done
                }
                Action::Change { file, edit, timed } => {
                    assert_eq!(file, FileId(7));
                    self.log.push(timed.to_string());
                    Reply::Changed(edit.apply(&mut self.text))
                }
                Action::Profile(filter) => {
                    self.log.push(format!("profile {filter}"));
                    Reply::Done
                }
                Action::Finish => return Ok(()),
                Action::Fail(failure) => return Err(failure),
            };
            let next = runner.advance(reply);
            runner = next.0;
            action = next.1;
        }
    }
}

#[test]
fn slow_benchmarks_run_on_request_only() {
    for benchmark in ALL {
        assert!(Runner::start(benchmark, false).is_none());
        let (runner, action) = Runner::start(benchmark, true).unwrap();
        assert_eq!(runner, Runner { benchmark, at: 0, file: None, cursor: None, call: None });
        assert!(matches!(action, Action::Load { .. }));
    }
}

#[test]
fn highlighting_run() {
    let mut server = Server::new("x(self.data.cargo_buildScripts_rebuildOnSave)");
    assert_eq!(server.run(Benchmark::Highlighting), Ok(()));
    assert_eq!(
        server.log,
        [
            "workspace loading: Own false",
            "find ./crates/rust-analyzer/src/config.rs",
            "Highlight Some(\"initial\") None false",
            "change",
            "profile *>10",
            "Highlight Some(\"after change\") None true",
        ]
    );
    assert_eq!(server.text, "x(self. data. cargo_buildScripts_rebuildOnSave)");
}

#[test]
fn completion_run() {
    let mut server = Server::new("impl S {\n\u{4e16}db.struct_signature(self.id)\n}\n");
    assert_eq!(server.run(Benchmark::Completion), Ok(()));
    assert_eq!(
        server.log,
        [
            "workspace loading: Own true",
            "find ./crates/hir/src/lib.rs",
            "change",
            "complete \u{4e16}sel None",
            "profile *>10",
            "change",
            "complete \u{4e16};sel Some(\"unqualified path completion\")",
            "change",
            "complete \u{4e16};self. Some(\"dot completion\")",
        ]
    );
    assert_eq!(server.text, "impl S {\n\u{4e16};self.;\ndb.struct_signature(self.id)\n}\n");
}

#[test]
fn diagnostics_run() {
    let mut server = Server::new("db.struct_signature(self.id)");
    assert_eq!(server.run(Benchmark::Diagnostics), Ok(()));
    assert_eq!(
        server.log,
        [
            "workspace loading: Own true",
            "find ./crates/hir/src/lib.rs",
            "Diagnose None None false",
            "profile *",
            "change",
            "Diagnose None Some(\"diagnostics\") true",
        ]
    );
    assert_eq!(server.text, "();\ndb.struct_signature(self.id)");
}

#[test]
fn macro_expansion_run() {
    let mut server = Server::new("use a::{b}; println!{} slint! {}");
    server.nodes = vec![
        SyntaxNode::Other,
        call(false, 12, 22, Some(9)),
        SyntaxNode::Other,
        call(true, 23, 32, Some(40)),
    ];
    assert_eq!(server.run(Benchmark::MacroExpansion), Ok(()));
    assert_eq!(
        server.log,
        [
            "workspace loading: Testcase false",
            "find testcase",
            "Expand(Cold) Some(\"cold expand\") None false",
            "apply edit",
            "profile *",
            "Expand(Warm) Some(\"warm expand\") Some(\"slint macro expansion\") true",
        ]
    );
    assert_eq!(server.text, "use a::{b}; println!{} slint! { }");
}

#[test]
fn macro_expansion_run_on_a_call_behind_a_path() {
    let mut server = Server::new("fn f() {}\nslint::slint! {A {}}\n");
    server.nodes = vec![call(true, 10, 30, Some(4))];
    assert_eq!(server.run(Benchmark::MacroExpansion), Ok(()));
    assert_eq!(server.text, "fn f() {}\nslint::slint! { A {}}\n");
}

#[test]
fn macro_expansion_run_on_a_call_without_braces() {
    let mut server = Server::new("fn a() {} m!(x);");
    server.nodes = vec![call(true, 10, 15, Some(2))];
    assert_eq!(server.run(Benchmark::MacroExpansion), Ok(()));
    assert_eq!(server.text, "fn a() { } m!(x);");
}

#[test]
fn unknown_and_excluded_files_end_a_run() {
    for benchmark in ALL {
        for lookup in [None, Some((FileId(7), FileExcluded::Yes))] {
            let mut server = Server::new("{");
            server.lookup = lookup;
            assert_eq!(server.run(benchmark), Err(Failure::NoFile));
            assert_eq!(server.log.len(), 2);
        }
    }
}

#[test]
fn edits_that_do_not_apply_end_a_run() {
    for benchmark in [Benchmark::Completion, Benchmark::Diagnostics] {
        let mut server = Server::new("fn main() {}");
        assert_eq!(server.run(benchmark), Err(Failure::NoEdit(EditError::NoMatch)));
    }
    let mut server = Server::new("mod a;");
    assert_eq!(
        server.run(Benchmark::MacroExpansion),
        Err(Failure::NoEdit(EditError::NoBrace))
    );
}

#[test]
fn a_cold_expansion_must_find_a_proc_macro_call() {
    for nodes in [
        vec![],
        vec![SyntaxNode::Other],
        vec![call(true, 0, 11, None)],
        vec![call(false, 0, 11, Some(3))],
    ] {
        let mut server = Server::new("println! {}");
        server.nodes = nodes;
        assert_eq!(server.run(Benchmark::MacroExpansion), Err(Failure::NoMacroCalls));
        assert_eq!(server.text, "println! {}");
    }
}

#[test]
fn a_warm_expansion_may_find_none() {
    let warm = Runner {
        benchmark: Benchmark::MacroExpansion,
        at: 5,
        file: Some(FileId(1)),
        cursor: None,
        call: Some(range(0, 1)),
    };
    let (runner, action) = warm.advance(Reply::Expanded { count: 0, first: None });
    assert_eq!(runner.at, 6);
    assert_eq!(action, Action::Finish);
}

#[test]
fn a_failure_leaves_the_run_where_it_is() {
    let finding =
        Runner { benchmark: Benchmark::Completion, at: 1, file: None, cursor: None, call: None };
    assert_eq!(
        finding.advance(Reply::LookedUp(None)),
        (finding, Action::Fail(Failure::NoFile))
    );
}

#[test]
fn completions_need_a_cursor_that_fits() {
    let changing = Runner {
        benchmark: Benchmark::Completion,
        at: 2,
        file: Some(FileId(3)),
        cursor: None,
        call: None,
    };
    let (_, action) = changing.advance(Reply::Changed(Ok(Some(u32::MAX as usize))));
    assert!(matches!(action, Action::Complete { file: FileId(3), offset: u32::MAX, .. }));
    let (_, action) = changing.advance(Reply::Changed(Ok(Some(u32::MAX as usize + 1))));
    assert_eq!(action, Action::Fail(Failure::NoPosition));
    let (_, action) = changing.advance(Reply::Changed(Ok(None)));
    assert_eq!(action, Action::Fail(Failure::NoPosition));
}

#[test]
fn offsets_fit_thirty_two_bits() {
    assert_eq!(text_size(0), Some(0));
    assert_eq!(text_size(4294967295), Some(4294967295));
    assert_eq!(text_size(4294967296), None);
}

#[test]
fn every_plan_begins_with_load_and_find() {
    for benchmark in ALL {
        let mut i = 0;
        let mut changed = false;
        let mut cursor = false;
        while let Some(step) = benchmark.step(i) {
            assert_eq!(matches!(step, Step::Load { .. }), i == 0);
            assert_eq!(matches!(step, Step::Find(_)), i == 1);
            if let Step::Change { edit, .. } = step {
                changed = true;
                cursor = matches!(edit, Edit::TypeSel | Edit::SeparateSel | Edit::TypeSelfDot);
            }
            if let Step::ChangeMacro { .. } = step {
                changed = true;
                cursor = false;
            }
            if let Step::Run(measured) = step {
                assert!(changed || !measured.cpu_span);
                assert!(cursor || measured.work != Work::Complete);
                assert!(changed || measured.work != Work::Expand(Pass::Warm));
            }
            i += 1;
        }
        assert!(i > 2);
        assert_eq!(benchmark.step(i + 1), None);
    }
}

#[test]
fn workspaces_are_loaded_alike() {
    for (benchmark, prefill_caches) in [
        (Benchmark::Highlighting, false),
        (Benchmark::Completion, true),
        (Benchmark::Diagnostics, true),
        (Benchmark::MacroExpansion, false),
    ] {
        let Some(Step::Load { workspace, cargo, load, .. }) = benchmark.step(0) else {
            panic!("the first step loads");
        };
        assert_eq!(workspace == Workspace::Testcase, benchmark == Benchmark::MacroExpansion);
        assert_eq!(
            cargo,
            CargoConfig {
                sysroot: Some(RustLibSource::Discover),
                all_targets: true,
                set_test: true
            }
        );
        assert_eq!(
            load,
            LoadCargoConfig {
                load_out_dirs_from_check: true,
                with_proc_macro_server: ProcMacroServerChoice::Sysroot,
                prefill_caches,
                num_worker_threads: 1,
                proc_macro_processes: 1,
            }
        );
    }
}

#[test]
fn lookups_give_included_files_only() {
    assert_eq!(file_id(Some((FileId(4), FileExcluded::No))), Some(FileId(4)));
    assert_eq!(file_id(Some((FileId(4), FileExcluded::Yes))), None);
    assert_eq!(file_id(None), None);
}

#[test]
fn expanded_proc_macro_calls_are_counted() {
    assert_eq!(expand_proc_macros_in(&vec![]), 0);
    assert_eq!(
        expand_proc_macros_in(&vec![
            SyntaxNode::Other,
            call(true, 10, 15, Some(12)),
            call(true, 20, 25, None),
            call(false, 30, 35, Some(7)),
            call(true, 40, 45, Some(0)),
            SyntaxNode::Other,
        ]),
        2
    );
}

#[test]
fn other_macro_calls_do_not_count() {
    let nodes = vec![call(false, 3, 8, Some(5)), call(false, 9, 14, Some(5))];
    assert_eq!(expand_proc_macros_in(&nodes), 0);
    assert_eq!(first_expanded(&nodes), None);
}

#[test]
fn first_expanded_proc_macro_call_is_found() {
    assert_eq!(first_expanded(&vec![]), None);
    assert_eq!(
        first_expanded(&vec![
            call(false, 1, 4, Some(2)),
            call(true, 5, 7, None),
            SyntaxNode::Other,
            call(true, 8, 12, Some(0)),
            call(true, 9, 11, Some(3)),
        ]),
        Some(range(8, 12))
    );
}

#[test]
fn the_expanded_macro_is_edited() {
    let cold = Runner {
        benchmark: Benchmark::MacroExpansion,
        at: 2,
        file: Some(FileId(3)),
        cursor: None,
        call: None,
    };
    let (runner, action) = cold.advance(Reply::Expanded { count: 2, first: Some(range(17, 30)) });
    assert_eq!(runner.call, Some(range(17, 30)));
    assert_eq!(
        action,
        Action::Change {
            file: FileId(3),
            edit: Edit::SpaceInBraces { call: range(17, 30) },
            timed: "apply edit"
        }
    );
}
