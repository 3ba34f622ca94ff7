//! What each benchmark does, step by step.

use vstd::prelude::*;

use crate::config::{CargoConfig, LoadCargoConfig};
use crate::edit::Edit;

verus! {

/// The benchmarks of the whole language server.
#[derive(Clone, Copy, Debug, PartialEq, Eq, Structural)]
pub enum Benchmark {
    Highlighting,
    Completion,
    Diagnostics,
    MacroExpansion,
}

/// The workspace that is loaded.
#[derive(Clone, Copy, Debug, PartialEq, Eq, Structural)]
pub enum Workspace {
    /// The language server's own sources.
    Own,
    /// The project that the user names.
    Testcase,
}

/// The file under test.
#[derive(Clone, Copy, Debug, PartialEq, Eq)]
pub enum FileRef {
    /// A file of the workspace, by its path from the root.
    Own(&'static str),
    /// The file that the user names.
    Testcase,
}

/// Which of the two macro expansions is meant.
#[derive(Clone, Copy, Debug, PartialEq, Eq, Structural)]
pub enum Pass {
    /// The first one, which also starts the macro server.
    Cold,
    /// The one after an edit, which is the one to profile.
    Warm,
}

/// What the language server is asked to do.
#[derive(Clone, Copy, Debug, PartialEq, Eq, Structural)]
pub enum Work {
    Highlight,
    /// Completions at the cursor that the latest edit left.
    Complete,
    Diagnose,
    Expand(Pass),
}

/// A piece of work with what is measured around it.
#[derive(Clone, Copy, Debug, PartialEq, Eq)]
pub struct Measured {
    pub work: Work,
    /// The label under which the time taken is printed.
    pub timed: Option<&'static str>,
    /// The label under which the work is traced.
    pub span: Option<&'static str>,
    /// The work is profiled.
    pub cpu_span: bool,
}

/// One step of a benchmark.
#[derive(Clone, Copy, Debug, PartialEq, Eq)]
pub enum Step {
    /// Loads the workspace, timed under the label.
    Load { workspace: Workspace, cargo: CargoConfig, load: LoadCargoConfig, timed: &'static str },
    /// Looks the file under test up.
    Find(FileRef),
    /// Asks for work on the file under test.
    Run(Measured),
    /// Edits the file under test, timed under the label.
    Change { edit: Edit, timed: &'static str },
    /// Puts a space behind the first brace in the first proc-macro call that
    /// the cold expansion expanded, or, where that call holds no brace, behind
    /// the first brace of the file, timed under the label.
    ChangeMacro { timed: &'static str },
    /// Starts the hierarchical profiler with a filter.
    Profile(&'static str),
}

impl Step {
    /// The step edits the file under test.
    pub open spec fn is_edit(self) -> bool {
        self is Change || self is ChangeMacro
    }
}

impl Benchmark {
    /// The steps of the benchmark.
    pub open spec fn steps(self) -> Seq<Step> {
        match self {
            Benchmark::Highlighting => seq![
                load(Workspace::Own, false),
                Step::Find(FileRef::Own("./crates/rust-analyzer/src/config.rs")),
                run(Work::Highlight, Some("initial"), None, false),
                Step::Change { edit: Edit::RespaceField, timed: "change" },
                Step::Profile("*>10"),
                run(Work::Highlight, Some("after change"), None, true),
            ],
            Benchmark::Completion => seq![
                load(Workspace::Own, true),
                Step::Find(FileRef::Own("./crates/hir/src/lib.rs")),
                Step::Change { edit: Edit::TypeSel, timed: "change" },
                run(Work::Complete, None, None, true),
                Step::Profile("*>10"),
                Step::Change { edit: Edit::SeparateSel, timed: "change" },
                run(Work::Complete, None, Some("unqualified path completion"), true),
                Step::Change { edit: Edit::TypeSelfDot, timed: "change" },
                run(Work::Complete, None, Some("dot completion"), true),
            ],
            Benchmark::Diagnostics => seq![
                load(Workspace::Own, true),
                Step::Find(FileRef::Own("./crates/hir/src/lib.rs")),
                run(Work::Diagnose, None, None, false),
                Step::Profile("*"),
                Step::Change { edit: Edit::InsertUnit, timed: "change" },
                run(Work::Diagnose, None, Some("diagnostics"), true),
            ],
            Benchmark::MacroExpansion => seq![
                load(Workspace::Testcase, false),
                Step::Find(FileRef::Testcase),
                run(Work::Expand(Pass::Cold), Some("cold expand"), None, false),
                Step::ChangeMacro { timed: "apply edit" },
                Step::Profile("*"),
                run(
                    Work::Expand(Pass::Warm),
                    Some("warm expand"),
                    Some("slint macro expansion"),
                    true,
                ),
            ],
        }
    }

    /// Step `i` of the benchmark, or `None` behind the last one.
    pub fn step(self, i: usize) -> (step: Option<Step>)
        ensures
            step == (if i < self.steps().len() {
                Some(self.steps()[i as int])
            } else {
                None
            }),
    {
        let steps = match self {
            Benchmark::Highlighting => vec![
                load_step(Workspace::Own, false),
                Step::Find(FileRef::Own("./crates/rust-analyzer/src/config.rs")),
                run_step(Work::Highlight, Some("initial"), None, false),
                Step::Change { edit: Edit::RespaceField, timed: "change" },
                Step::Profile("*>10"),
                run_step(Work::Highlight, Some("after change"), None, true),
            ],
            Benchmark::Completion => vec![
                load_step(Workspace::Own, true),
                Step::Find(FileRef::Own("./crates/hir/src/lib.rs")),
                Step::Change { edit: Edit::TypeSel, timed: "change" },
                run_step(Work::Complete, None, None, true),
                Step::Profile("*>10"),
                Step::Change { edit: Edit::SeparateSel, timed: "change" },
                run_step(Work::Complete, None, Some("unqualified path completion"), true),
                Step::Change { edit: Edit::TypeSelfDot, timed: "change" },
                run_step(Work::Complete, None, Some("dot completion"), true),
            ],
            Benchmark::Diagnostics => vec![
                load_step(Workspace::Own, true),
                Step::Find(FileRef::Own("./crates/hir/src/lib.rs")),
                run_step(Work::Diagnose, None, None, false),
                Step::Profile("*"),
                Step::Change { edit: Edit::InsertUnit, timed: "change" },
                run_step(Work::Diagnose, None, Some("diagnostics"), true),
            ],
            Benchmark::MacroExpansion => vec![
                load_step(Workspace::Testcase, false),
                Step::Find(FileRef::Testcase),
                run_step(Work::Expand(Pass::Cold), Some("cold expand"), None, false),
                Step::ChangeMacro { timed: "apply edit" },
                Step::Profile("*"),
                run_step(
                    Work::Expand(Pass::Warm),
                    Some("warm expand"),
                    Some("slint macro expansion"),
                    true,
                ),
            ],
        };
        assert(steps@ == self.steps());
        if i < steps.len() {
            Some(steps[i])
        } else {
            None
        }
    }
}

/// The step that loads a workspace.
pub open spec fn load(workspace: Workspace, prefill_caches: bool) -> Step {
    Step::Load {
        workspace,
        cargo: CargoConfig::spec_benchmark(),
        load: LoadCargoConfig::spec_benchmark(prefill_caches),
        timed: "workspace loading",
    }
}

/// The step that asks for work.
pub open spec fn run(
    work: Work,
    timed: Option<&'static str>,
    span: Option<&'static str>,
    cpu_span: bool,
) -> Step {
    Step::Run(Measured { work, timed, span, cpu_span })
}

fn load_step(workspace: Workspace, prefill_caches: bool) -> (step: Step)
    ensures
        step == load(workspace, prefill_caches),
{
    Step::Load {
        workspace,
        cargo: CargoConfig::benchmark(),
        load: LoadCargoConfig::benchmark(prefill_caches),
        timed: "workspace loading",
    }
}

fn run_step(
    work: Work,
    timed: Option<&'static str>,
    span: Option<&'static str>,
    cpu_span: bool,
) -> (step: Step)
    ensures
        step == run(work, timed, span, cpu_span),
{
    Step::Run(Measured { work, timed, span, cpu_span })
}

/// Every benchmark first loads its workspace and then looks its file up, and
/// does neither again.
pub proof fn law_load_and_find_come_first(benchmark: Benchmark)
    ensures
        benchmark.steps().len() > 2,
        benchmark.steps()[0] is Load,
        benchmark.steps()[1] is Find,
        forall|i: int|
            2 <= i < benchmark.steps().len() ==> !(benchmark.steps()[i] is Load) && !(
            benchmark.steps()[i] is Find),
{
}

/// What is profiled is work after a change: between the loading and every
/// profiled step stands an edit of the file under test.
pub proof fn law_profiled_work_follows_an_edit(benchmark: Benchmark, i: int)
    requires
        0 <= i < benchmark.steps().len(),
        benchmark.steps()[i] matches Step::Run(m) && m.cpu_span,
    ensures
        exists|j: int| 0 <= j < i && (#[trigger] benchmark.steps()[j]).is_edit(),
{
    let steps = benchmark.steps();
    match benchmark {
        Benchmark::Highlighting => {
            assert(steps[3].is_edit());
        },
        Benchmark::Completion => {
            assert(steps[2].is_edit());
        },
        Benchmark::Diagnostics => {
            assert(steps[4].is_edit());
        },
        Benchmark::MacroExpansion => {
            assert(steps[3].is_edit());
        },
    }
}

/// Completions are asked for where a user would be typing: the latest edit
/// before each completion step left a cursor.
pub proof fn law_completion_follows_typing(benchmark: Benchmark, i: int)
    requires
        0 <= i < benchmark.steps().len(),
        benchmark.steps()[i] matches Step::Run(m) && m.work is Complete,
    ensures
        exists|j: int|
            {
                &&& 0 <= j < i
                &&& #[trigger] benchmark.steps()[j] matches Step::Change { edit, .. }
                    && edit.typed() is Some
                &&& forall|l: int| j < l < i ==> !(#[trigger] benchmark.steps()[l]).is_edit()
            },
{
    let steps = benchmark.steps();
    assert(benchmark is Completion);
    if i == 3 {
        assert(steps[2] is Change);
    } else if i == 6 {
        assert(steps[5] is Change);
    } else {
        assert(steps[7] is Change);
    }
}

/// Macros are expanded cold first; the warm expansion comes after the edit that
/// is aimed at the expanded macro call.
pub proof fn law_warm_expansion_follows_cold_and_edit(benchmark: Benchmark, i: int)
    requires
        0 <= i < benchmark.steps().len(),
        benchmark.steps()[i] matches Step::Run(m) && m.work == Work::Expand(Pass::Warm),
    ensures
        exists|c: int, e: int|
            {
                &&& 0 <= c < e < i
                &&& #[trigger] benchmark.steps()[c] matches Step::Run(m) && m.work == Work::Expand(
                    Pass::Cold,
                )
                &&& #[trigger] benchmark.steps()[e] is ChangeMacro
            },
{
    let steps = benchmark.steps();
    assert(benchmark is MacroExpansion);
    assert(steps[2] is Run);
    assert(steps[3] is ChangeMacro);
}

} // verus!
