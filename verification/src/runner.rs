//! Running a benchmark: which action comes next, given what the last one gave.

use vstd::prelude::*;

use crate::config::{CargoConfig, LoadCargoConfig};
use crate::edit::{Edit, EditError};
use crate::host::{file_id, FileExcluded, FileId};
use crate::plan::{Benchmark, FileRef, Measured, Pass, Step, Work, Workspace};
use crate::text::TextRange;
#[allow(unused_imports)]
use crate::edit::law_completion_edits_follow_each_other;
#[allow(unused_imports)]
use crate::macro_body::{
    invocation, invoked, law_space_edit_lands_in_body_behind_path, macro_body, opening,
    MacroBodyError,
};
#[allow(unused_imports)]
use crate::text::{
    brace, byte_offset, first, found, law_space_stays_in_range, lemma_brace, occurs_at, spaced,
};

verus! {

/// Why a benchmark is broken off.
#[derive(Clone, Copy, Debug, PartialEq, Eq, Structural)]
pub enum Failure {
    /// The file under test is unknown or left out of the analysis.
    NoFile,
    /// The edit cannot be made to the file under test.
    NoEdit(EditError),
    /// There is no cursor, or its offset does not fit the server's 32 bits.
    NoPosition,
    /// The first expansion found no proc-macro call to expand.
    NoMacroCalls,
}

/// What is to be done next.
#[derive(Clone, Copy, Debug, PartialEq, Eq)]
pub enum Action {
    /// Load the workspace.
    Load { workspace: Workspace, cargo: CargoConfig, load: LoadCargoConfig, timed: &'static str },
    /// Look the file up.
    LookUp(FileRef),
    /// Highlight, diagnose or expand the file.
    Analyse { file: FileId, measured: Measured },
    /// Compute completions in the file at the byte offset.
    Complete { file: FileId, offset: u32, measured: Measured },
    /// Make the edit to the file.
    Change { file: FileId, edit: Edit, timed: &'static str },
    /// Start the hierarchical profiler with the filter.
    Profile(&'static str),
    /// Nothing: the benchmark is over.
    Finish,
    /// Nothing: the benchmark cannot go on.
    Fail(Failure),
}

/// What came of the last action.
#[derive(Clone, Copy, Debug, PartialEq, Eq)]
pub enum Reply {
    /// It was done.
    Done,
    /// The file was looked up.
    LookedUp(Option<(FileId, FileExcluded)>),
    /// The edit was made and left this cursor, or could not be made.
    Changed(Result<Option<usize>, EditError>),
    /// So many proc-macro calls were expanded, and the first of them stands
    /// there.
    Expanded { count: usize, first: Option<TextRange> },
}

/// A benchmark under way.
#[derive(Clone, Copy, Debug, PartialEq, Eq)]
pub struct Runner {
    pub benchmark: Benchmark,
    /// The step that the last action belongs to.
    pub at: usize,
    /// The file under test, once it is found.
    pub file: Option<FileId>,
    /// The byte offset of the cursor that the latest edit left.
    pub cursor: Option<usize>,
    /// Where the first proc-macro call stands, once it is expanded.
    pub call: Option<TextRange>,
}

/// A byte offset as the language server takes it, if it fits.
pub fn text_size(offset: usize) -> (size: Option<u32>)
    ensures
        match size {
            Some(s) => s == offset,
            None => offset > u32::MAX,
        },
{
    if offset <= 0xffff_ffff {
        Some(offset as u32)
    } else {
        None
    }
}

impl Runner {
    /// The file and the macro call are found by the time that a step needs them.
    pub open spec fn wf(self) -> bool {
        &&& self.at <= self.benchmark.steps().len()
        &&& self.at >= 2 ==> self.file is Some
        &&& self.benchmark is MacroExpansion && self.at >= 3 ==> self.call is Some
    }

    /// The benchmark goes on after a reply.
    pub open spec fn under_way(self) -> bool {
        self.wf() && self.at < self.benchmark.steps().len()
    }

    /// The step that the last action belongs to.
    pub open spec fn step(self) -> Step {
        self.benchmark.steps()[self.at as int]
    }

    /// The reply answers the last action.
    pub open spec fn expects(self, reply: Reply) -> bool {
        match self.step() {
            Step::Find(_) => reply is LookedUp,
            Step::Change { .. } => reply is Changed,
            Step::ChangeMacro { .. } => reply is Changed,
            Step::Run(m) => if m.work is Expand {
                reply matches Reply::Expanded { count, first } && (count == 0 <==> first is None)
            } else {
                reply is Done
            },
            _ => reply is Done,
        }
    }

    /// The same benchmark one step on.
    pub open spec fn one_on(self) -> Runner {
        Runner { at: (self.at + 1) as usize, ..self }
    }

    /// The last action was the first expansion.
    pub open spec fn expands_cold(self) -> bool {
        self.step() matches Step::Run(m) && m.work == Work::Expand(Pass::Cold)
    }

    /// What the reply makes of the benchmark.
    pub open spec fn after(self, reply: Reply) -> Result<Runner, Failure> {
        match reply {
            Reply::Done => Ok(self.one_on()),
            Reply::LookedUp(Some((id, FileExcluded::No))) => Ok(
                Runner { file: Some(id), ..self.one_on() },
            ),
            Reply::LookedUp(_) => Err(Failure::NoFile),
            Reply::Changed(Ok(cursor)) => Ok(Runner { cursor, ..self.one_on() }),
            Reply::Changed(Err(e)) => Err(Failure::NoEdit(e)),
            Reply::Expanded { count, first } => if !self.expands_cold() {
                Ok(self.one_on())
            } else if count == 0 {
                Err(Failure::NoMacroCalls)
            } else {
                Ok(Runner { call: first, ..self.one_on() })
            },
        }
    }

    /// The action of the step that the benchmark stands at.
    pub open spec fn action(self) -> Action {
        if self.at >= self.benchmark.steps().len() {
            Action::Finish
        } else {
            match self.step() {
                Step::Load { workspace, cargo, load, timed } => Action::Load {
                    workspace,
                    cargo,
                    load,
                    timed,
                },
                Step::Find(file) => Action::LookUp(file),
                Step::Run(measured) => if !(measured.work is Complete) {
                    Action::Analyse { file: self.file->0, measured }
                } else if self.cursor is Some && self.cursor->0 <= u32::MAX {
                    Action::Complete { file: self.file->0, offset: self.cursor->0 as u32, measured }
                } else {
                    Action::Fail(Failure::NoPosition)
                },
                Step::Change { edit, timed } => Action::Change { file: self.file->0, edit, timed },
                Step::ChangeMacro { timed } => Action::Change {
                    file: self.file->0,
                    edit: Edit::SpaceInBraces { call: self.call->0 },
                    timed,
                },
                Step::Profile(filter) => Action::Profile(filter),
            }
        }
    }

    /// Begins a benchmark. Slow benchmarks run only where they are asked for.
    pub fn start(benchmark: Benchmark, run_slow_benches: bool) -> (begun: Option<(Runner, Action)>)
        ensures
            match begun {
                Some((runner, action)) => {
                    &&& run_slow_benches
                    &&& runner == (Runner { benchmark, at: 0, file: None, cursor: None, call: None })
                    &&& runner.under_way()
                    &&& action == runner.action()
                },
                None => !run_slow_benches,
            },
    {
        if !run_slow_benches {
            return None;
        }
        let runner = Runner { benchmark, at: 0, file: None, cursor: None, call: None };
        Some((runner, runner.next_action()))
    }

    fn next_action(self) -> (action: Action)
        requires
            self.wf(),
        ensures
            action == self.action(),
    {
        match self.benchmark.step(self.at) {
            None => Action::Finish,
            Some(Step::Load { workspace, cargo, load, timed }) => Action::Load {
                workspace,
                cargo,
                load,
                timed,
            },
            Some(Step::Find(file)) => Action::LookUp(file),
            Some(Step::Profile(filter)) => Action::Profile(filter),
            Some(Step::Change { edit, timed }) => Action::Change {
                file: self.file.unwrap(),
                edit,
                timed,
            },
            Some(Step::ChangeMacro { timed }) => Action::Change {
                file: self.file.unwrap(),
                edit: Edit::SpaceInBraces { call: self.call.unwrap() },
                timed,
            },
            Some(Step::Run(measured)) => {
                let file = self.file.unwrap();
                match (measured.work, self.cursor) {
                    (Work::Complete, Some(cursor)) => match text_size(cursor) {
                        Some(offset) => Action::Complete { file, offset, measured },
                        None => Action::Fail(Failure::NoPosition),
                    },
                    (Work::Complete, None) => Action::Fail(Failure::NoPosition),
                    _ => Action::Analyse { file, measured },
                }
            },
        }
    }

    /// Takes the reply to the last action and says what is to be done next. On
    /// a failure the benchmark stays where it is.
    pub fn advance(self, reply: Reply) -> (next: (Runner, Action))
        requires
            self.under_way(),
            self.expects(reply),
        ensures
            next.0.wf(),
            match self.after(reply) {
                Ok(runner) => next == (runner, runner.action()),
                Err(failure) => next == (self, Action::Fail(failure)),
            },
    {
        let mut runner = self;
        match reply {
            Reply::Done => {},
            Reply::LookedUp(lookup) => match file_id(lookup) {
                Some(id) => {
                    runner.file = Some(id);
                },
                None => {
                    return (self, Action::Fail(Failure::NoFile));
                },
            },
            Reply::Changed(Ok(cursor)) => {
                runner.cursor = cursor;
            },
            Reply::Changed(Err(e)) => {
                return (self, Action::Fail(Failure::NoEdit(e)));
            },
            Reply::Expanded { count, first } => {
                if let Some(Step::Run(measured)) = self.benchmark.step(self.at) {
                    if let Work::Expand(Pass::Cold) = measured.work {
                        if count == 0 {
                            return (self, Action::Fail(Failure::NoMacroCalls));
                        }
                        runner.call = first;
                    }
                }
            },
        }
        runner.at = self.at + 1;
        (runner, runner.next_action())
    }
}

/// A reply moves the benchmark one step on or ends it, so that a run takes no
/// more replies than the benchmark has steps.
pub proof fn law_a_reply_is_a_step(runner: Runner, reply: Reply)
    requires
        runner.under_way(),
        runner.expects(reply),
    ensures
        runner.after(reply) matches Ok(next) ==> {
            &&& next.wf()
            &&& next.benchmark == runner.benchmark
            &&& next.at == runner.at + 1
            &&& next.action() is Finish <==> next.at == next.benchmark.steps().len()
        },
{
}

/// All work is on the one file that was looked up.
pub proof fn law_the_file_stays(runner: Runner, reply: Reply)
    requires
        runner.under_way(),
        runner.expects(reply),
        runner.at >= 2,
    ensures
        runner.after(reply) matches Ok(next) ==> next.file == runner.file,
{
}

/// An edit's cursor is where the completions that follow it are asked for.
pub proof fn law_completion_is_at_the_cursor(runner: Runner, cursor: usize)
    requires
        runner.under_way(),
        runner.step() is Change,
        runner.benchmark is Completion,
        cursor <= u32::MAX,
    ensures
        ({
            let changed = runner.after(Reply::Changed(Ok(Some(cursor))))->Ok_0;
            changed.action() matches Action::Complete { file, offset, .. } && Some(file)
                == runner.file && offset == cursor
        }),
{
}

/// The edit between the two expansions goes to the macro call that the cold
/// expansion found first.
pub proof fn law_the_expanded_macro_is_edited(runner: Runner, count: usize, first: TextRange)
    requires
        runner.under_way(),
        runner.expands_cold(),
        count > 0,
    ensures
        ({
            let expanded = runner.after(Reply::Expanded { count, first: Some(first) })->Ok_0;
            expanded.action() matches Action::Change { file, edit, .. } && Some(file)
                == runner.file && edit == (Edit::SpaceInBraces { call: first })
        }),
{
}

/// Where the cold expansion found a proc-macro call with a brace first, the
/// edit before the warm expansion can be made, puts its one space behind the
/// first brace of that call, inside the call, and changes nothing else.
pub proof fn law_the_warm_expansion_sees_a_changed_call(
    runner: Runner,
    text: Seq<char>,
    count: usize,
    first: TextRange,
    k: int,
)
    requires
        runner.under_way(),
        runner.expands_cold(),
        count > 0,
        0 <= k < text.len(),
        text[k] == '{',
        first.start <= byte_offset(text, k) < first.end,
    ensures
        ({
            let expanded = runner.after(Reply::Expanded { count, first: Some(first) })->Ok_0;
            expanded.action() matches Action::Change { edit, .. } && edit.applies(text) && exists|
                b: int,
            |
                {
                    &&& 0 <= b <= k
                    &&& #[trigger] text[b] == '{'
                    &&& first.start <= byte_offset(text, b) < first.end
                    &&& forall|j: int|
                        0 <= j < b && #[trigger] text[j] == '{' ==> byte_offset(text, j)
                            < first.start
                    &&& edit.edited(text) == text.take(b + 1) + seq![' '] + text.skip(b + 1)
                }
        }),
{
    law_the_expanded_macro_is_edited(runner, count, first);
    law_space_stays_in_range(text, first, k);
    lemma_brace(text);
    assert(occurs_at(text, "{"@, k));
    let b = brace(text, first.start as nat);
    assert(text[b] == '{');
}

/// Where the cold expansion found the `slint!` call of a file with a macro
/// body first, the edit before the warm expansion can be made and changes that
/// body by one space in front. The call may begin with a path.
pub proof fn law_the_warm_expansion_sees_a_changed_body(
    runner: Runner,
    text: Seq<char>,
    count: usize,
    first: TextRange,
    start: int,
)
    requires
        runner.under_way(),
        runner.expands_cold(),
        count > 0,
        macro_body(text) is Ok,
        0 <= start <= invocation(text),
        forall|k: int| start <= k < invocation(text) ==> text[k] != '{',
        first.start == byte_offset(text, start),
        byte_offset(text, opening(text)) < first.end,
        invoked(text) || !invoked(spaced(text, first)),
    ensures
        ({
            let expanded = runner.after(Reply::Expanded { count, first: Some(first) })->Ok_0;
            expanded.action() matches Action::Change { edit, .. } && edit.applies(text)
                && macro_body(edit.edited(text)) == Ok::<Seq<char>, MacroBodyError>(
                seq![' '] + macro_body(text)->Ok_0,
            )
        }),
{
    law_the_expanded_macro_is_edited(runner, count, first);
    law_space_edit_lands_in_body_behind_path(text, start, first);
}

/// Every benchmark loads its workspace, looks its file up, and goes on with
/// that file, whatever its number is. A file that is unknown or left out of the
/// analysis ends it.
pub proof fn law_every_run_begins_alike(
    benchmark: Benchmark,
    lookup: Option<(FileId, FileExcluded)>,
)
    ensures
        ({
            let r0 = Runner { benchmark, at: 0, file: None, cursor: None, call: None };
            let r1 = Runner { benchmark, at: 1, file: None, cursor: None, call: None };
            &&& r0.under_way()
            &&& r0.action() matches Action::Load { workspace, cargo, load, .. } && (workspace
                is Testcase <==> benchmark is MacroExpansion) && cargo.all_targets && cargo.set_test
                && cargo.sysroot is Some && load.load_out_dirs_from_check
                && load.num_worker_threads == 1 && load.proc_macro_processes == 1 && (
            load.prefill_caches <==> benchmark is Completion || benchmark is Diagnostics)
            &&& r0.expects(Reply::Done)
            &&& r0.after(Reply::Done) == Ok::<Runner, Failure>(r1)
            &&& r1.under_way()
            &&& r1.action() is LookUp
            &&& r1.expects(Reply::LookedUp(lookup))
            &&& r1.after(Reply::LookedUp(lookup)) == match lookup {
                Some((file, excluded)) => if excluded is No {
                    Ok(Runner { benchmark, at: 2, file: Some(file), cursor: None, call: None })
                } else {
                    Err(Failure::NoFile)
                },
                None => Err(Failure::NoFile),
            }
        }),
{
}

/// The highlighting benchmark highlights the file that was looked up, respaces
/// the field in it, and highlights it again, whatever the file's number is.
pub proof fn law_highlighting_run(file: FileId)
    ensures
        ({
            let benchmark = Benchmark::Highlighting;
            let r2 = Runner { benchmark, at: 2, file: Some(file), cursor: None, call: None };
            let r3 = r2.after(Reply::Done)->Ok_0;
            let r4 = r3.after(Reply::Changed(Ok(None)))->Ok_0;
            let r5 = r4.after(Reply::Done)->Ok_0;
            let r6 = r5.after(Reply::Done)->Ok_0;
            let initial = Measured {
                work: Work::Highlight,
                timed: Some("initial"),
                span: None,
                cpu_span: false,
            };
            let again = Measured {
                work: Work::Highlight,
                timed: Some("after change"),
                span: None,
                cpu_span: true,
            };
            &&& r2.under_way() && r2.expects(Reply::Done)
            &&& r3.under_way() && r3.expects(Reply::Changed(Ok(None)))
            &&& r4.under_way() && r4.expects(Reply::Done)
            &&& r5.under_way() && r5.expects(Reply::Done)
            &&& r2.action() == (Action::Analyse { file, measured: initial })
            &&& r3.action() == (Action::Change { file, edit: Edit::RespaceField, timed: "change" })
            &&& r4.action() == Action::Profile("*>10")
            &&& r5.action() == (Action::Analyse { file, measured: again })
            &&& r6.action() is Finish
        }),
{
}

/// The diagnostics benchmark diagnoses the file that was looked up, puts a unit
/// statement into it, and diagnoses it again, whatever the file's number is.
pub proof fn law_diagnostics_run(file: FileId)
    ensures
        ({
            let benchmark = Benchmark::Diagnostics;
            let r2 = Runner { benchmark, at: 2, file: Some(file), cursor: None, call: None };
            let r3 = r2.after(Reply::Done)->Ok_0;
            let r4 = r3.after(Reply::Done)->Ok_0;
            let r5 = r4.after(Reply::Changed(Ok(None)))->Ok_0;
            let r6 = r5.after(Reply::Done)->Ok_0;
            let initial = Measured {
                work: Work::Diagnose,
                timed: None,
                span: None,
                cpu_span: false,
            };
            let again = Measured {
                work: Work::Diagnose,
                timed: None,
                span: Some("diagnostics"),
                cpu_span: true,
            };
            &&& r2.under_way() && r2.expects(Reply::Done)
            &&& r3.under_way() && r3.expects(Reply::Done)
            &&& r4.under_way() && r4.expects(Reply::Changed(Ok(None)))
            &&& r5.under_way() && r5.expects(Reply::Done)
            &&& r2.action() == (Action::Analyse { file, measured: initial })
            &&& r3.action() == Action::Profile("*")
            &&& r4.action() == (Action::Change { file, edit: Edit::InsertUnit, timed: "change" })
            &&& r5.action() == (Action::Analyse { file, measured: again })
            &&& r6.action() is Finish
        }),
{
}

/// The macro expansion benchmark expands the file that was looked up, puts a
/// space into the call that was expanded first, and expands the file again,
/// however many calls there are, wherever the first of them stands, and
/// whatever the second expansion finds.
pub proof fn law_macro_expansion_run(
    file: FileId,
    count: usize,
    call: TextRange,
    again: usize,
    first: Option<TextRange>,
)
    requires
        count > 0,
        again == 0 <==> first is None,
    ensures
        ({
            let benchmark = Benchmark::MacroExpansion;
            let found = Reply::Expanded { count, first: Some(call) };
            let found_again = Reply::Expanded { count: again, first };
            let r2 = Runner { benchmark, at: 2, file: Some(file), cursor: None, call: None };
            let r3 = r2.after(found)->Ok_0;
            let r4 = r3.after(Reply::Changed(Ok(None)))->Ok_0;
            let r5 = r4.after(Reply::Done)->Ok_0;
            let r6 = r5.after(found_again)->Ok_0;
            let cold = Measured {
                work: Work::Expand(Pass::Cold),
                timed: Some("cold expand"),
                span: None,
                cpu_span: false,
            };
            let warm = Measured {
                work: Work::Expand(Pass::Warm),
                timed: Some("warm expand"),
                span: Some("slint macro expansion"),
                cpu_span: true,
            };
            let edit = Edit::SpaceInBraces { call };
            &&& r2.under_way() && r2.expects(found)
            &&& r2.after(found) is Ok
            &&& r3.under_way() && r3.expects(Reply::Changed(Ok(None)))
            &&& r4.under_way() && r4.expects(Reply::Done)
            &&& r5.under_way() && r5.expects(found_again)
            &&& r5.after(found_again) is Ok
            &&& r2.action() == (Action::Analyse { file, measured: cold })
            &&& r3.action() == (Action::Change { file, edit, timed: "apply edit" })
            &&& r4.action() == Action::Profile("*")
            &&& r5.action() == (Action::Analyse { file, measured: warm })
            &&& r6.action() is Finish
        }),
{
}

/// The completion benchmark makes its three edits and asks after each of them
/// for completions in the file that was looked up, at the cursor that the edit
/// left, wherever that is. Without a cursor that fits 32 bits it cannot go on.
pub proof fn law_completions_are_where_the_edits_leave_the_cursor(
    file: FileId,
    a: Option<usize>,
    b: Option<usize>,
    c: Option<usize>,
)
    ensures
        ({
            let benchmark = Benchmark::Completion;
            let r2 = Runner { benchmark, at: 2, file: Some(file), cursor: None, call: None };
            let r3 = r2.after(Reply::Changed(Ok(a)))->Ok_0;
            let r4 = r3.after(Reply::Done)->Ok_0;
            let r5 = r4.after(Reply::Done)->Ok_0;
            let r6 = r5.after(Reply::Changed(Ok(b)))->Ok_0;
            let r7 = r6.after(Reply::Done)->Ok_0;
            let r8 = r7.after(Reply::Changed(Ok(c)))->Ok_0;
            let r9 = r8.after(Reply::Done)->Ok_0;
            let stuck = Action::Fail(Failure::NoPosition);
            let plain = Measured { work: Work::Complete, timed: None, span: None, cpu_span: true };
            let path = Measured { span: Some("unqualified path completion"), ..plain };
            let dot = Measured { span: Some("dot completion"), ..plain };
            &&& r2.under_way() && r2.expects(Reply::Changed(Ok(a)))
            &&& r3.under_way() && r3.expects(Reply::Done)
            &&& r4.under_way() && r4.expects(Reply::Done)
            &&& r5.under_way() && r5.expects(Reply::Changed(Ok(b)))
            &&& r6.under_way() && r6.expects(Reply::Done)
            &&& r7.under_way() && r7.expects(Reply::Changed(Ok(c)))
            &&& r8.under_way() && r8.expects(Reply::Done)
            &&& r2.action() == (Action::Change { file, edit: Edit::TypeSel, timed: "change" })
            &&& r3.action() == match a {
                Some(at) if at <= u32::MAX => Action::Complete {
                    file,
                    offset: at as u32,
                    measured: plain,
                },
                _ => stuck,
            }
            &&& r4.action() == Action::Profile("*>10")
            &&& r5.action() == (Action::Change { file, edit: Edit::SeparateSel, timed: "change" })
            &&& r6.action() == match b {
                Some(at) if at <= u32::MAX => Action::Complete {
                    file,
                    offset: at as u32,
                    measured: path,
                },
                _ => stuck,
            }
            &&& r7.action() == (Action::Change { file, edit: Edit::TypeSelfDot, timed: "change" })
            &&& r8.action() == match c {
                Some(at) if at <= u32::MAX => Action::Complete {
                    file,
                    offset: at as u32,
                    measured: dot,
                },
                _ => stuck,
            }
            &&& r9.action() is Finish
        }),
{
}

/// An edit that cannot be made ends every benchmark with its error, and a first
/// expansion without a proc-macro call ends the macro expansion benchmark.
pub proof fn law_failures_end_the_run(runner: Runner, file: FileId, error: EditError)
    requires
        runner.step() is Change || runner.step() is ChangeMacro,
    ensures
        runner.expects(Reply::Changed(Err(error))),
        runner.after(Reply::Changed(Err(error))) == Err::<Runner, Failure>(Failure::NoEdit(error)),
        ({
            let cold = Runner {
                benchmark: Benchmark::MacroExpansion,
                at: 2,
                file: Some(file),
                cursor: None,
                call: None,
            };
            let none = Reply::Expanded { count: 0, first: None };
            &&& cold.under_way()
            &&& cold.expects(none)
            &&& cold.after(none) == Err::<Runner, Failure>(Failure::NoMacroCalls)
        }),
{
}

/// On every file that holds the call, and whose cursors fit the server's
/// offsets, the completion benchmark runs to its end and asks for completions
/// behind `sel`, `;sel` and `;self.` in front of the leftmost call.
pub proof fn law_completion_run(file: FileId, text: Seq<char>, offset: usize)
    requires
        found(text, "db.struct_signature(self.id)"@),
        offset == byte_offset(text, first(text, "db.struct_signature(self.id)"@)),
        offset + 6 <= u32::MAX,
    ensures
        ({
            let text1 = Edit::TypeSel.edited(text);
            let text2 = Edit::SeparateSel.edited(text1);
            let c1 = Edit::TypeSel.cursor(text)->0 as usize;
            let c2 = Edit::SeparateSel.cursor(text1)->0 as usize;
            let c3 = Edit::TypeSelfDot.cursor(text2)->0 as usize;
            let r0 = Runner { benchmark: Benchmark::Completion, at: 0, file: None, cursor: None, call: None };
            let r1 = r0.after(Reply::Done)->Ok_0;
            let r2 = r1.after(Reply::LookedUp(Some((file, FileExcluded::No))))->Ok_0;
            let r3 = r2.after(Reply::Changed(Ok(Some(c1))))->Ok_0;
            let r4 = r3.after(Reply::Done)->Ok_0;
            let r5 = r4.after(Reply::Done)->Ok_0;
            let r6 = r5.after(Reply::Changed(Ok(Some(c2))))->Ok_0;
            let r7 = r6.after(Reply::Done)->Ok_0;
            let r8 = r7.after(Reply::Changed(Ok(Some(c3))))->Ok_0;
            let r9 = r8.after(Reply::Done)->Ok_0;
            &&& r0.expects(Reply::Done)
            &&& r1.expects(Reply::LookedUp(Some((file, FileExcluded::No))))
            &&& r2.expects(Reply::Changed(Ok(Some(c1))))
            &&& r3.expects(Reply::Done)
            &&& r4.expects(Reply::Done)
            &&& r5.expects(Reply::Changed(Ok(Some(c2))))
            &&& r6.expects(Reply::Done)
            &&& r7.expects(Reply::Changed(Ok(Some(c3))))
            &&& r8.expects(Reply::Done)
            &&& r3.action() matches Action::Complete { file: f, offset: o, .. } && f == file && o
                == offset + 3
            &&& r6.action() matches Action::Complete { file: f, offset: o, .. } && f == file && o
                == offset + 4
            &&& r8.action() matches Action::Complete { file: f, offset: o, .. } && f == file && o
                == offset + 6
            &&& r9.action() is Finish
        }),
{
    law_completion_edits_follow_each_other(text);
}

} // verus!
