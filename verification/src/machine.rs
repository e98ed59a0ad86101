//! The statement evaluator as a small-step machine. Statements run strictly
//! in source order against one shared variable store; a `for` loop
//! evaluates its iterator once, splits the output into lines, and runs its
//! body for each line with the loop bindings refreshed. Whenever a command
//! needs outside work the machine stops with an `Action`, and continues
//! when the caller hands back the matching `Event`.

use vstd::prelude::*;

use crate::ast::{Program, Statement, StatementView, CommandView, stmt_views_from,
    lemma_stmt_views_from};
use crate::builtins;
use crate::context::{ctx_insert, Context, Environment};
use crate::evaluate::{self, spec_begin, spec_resume, event_fits, Action, ActionView, BeginView,
    CommandOutcome, CommandStep, Effects, Event, EventView, Fatal, OutcomeView, Resume, ResumeView,
    StepView};
use crate::text;

verus! {

/// One unit of pending work: a statement to run, or a loop part-way
/// through its lines.
pub enum Task {
    Run(Statement),
    Iterate { binding: Option<Vec<char>>, lines: Vec<Vec<char>>, at: usize, body: Vec<Statement> },
}

#[verifier::ext_equal]
pub enum TaskView {
    Run(StatementView),
    Iterate {
        binding: Option<Seq<char>>,
        lines: Seq<Seq<char>>,
        at: int,
        body: Seq<StatementView>,
    },
}

impl View for Task {
    type V = TaskView;

    open spec fn view(&self) -> TaskView {
        match self {
            Task::Run(s) => TaskView::Run(s@),
            Task::Iterate { binding, lines, at, body } => TaskView::Iterate {
                binding: match binding {
                    Some(b) => Some(b@),
                    None => None,
                },
                lines: crate::parsing::views_of(lines@),
                at: *at as int,
                body: stmt_views_from(body@, 0),
            },
        }
    }
}

pub open spec fn task_views(v: Seq<Task>) -> Seq<TaskView> {
    Seq::new(v.len(), |i: int| v[i]@)
}

/// What a finished command's result is for: a plain command discards it, a
/// declaration binds it, a loop iterates over its lines.
pub enum Target {
    Discard,
    Bind { name: Vec<char> },
    Loop { name: Vec<char>, first: Option<Vec<char>>, body: Vec<Statement> },
}

#[verifier::ext_equal]
pub enum TargetView {
    Discard,
    Bind { name: Seq<char> },
    Loop { name: Seq<char>, first: Option<Seq<char>>, body: Seq<StatementView> },
}

impl View for Target {
    type V = TargetView;

    open spec fn view(&self) -> TargetView {
        match self {
            Target::Discard => TargetView::Discard,
            Target::Bind { name } => TargetView::Bind { name: name@ },
            Target::Loop { name, first, body } => TargetView::Loop {
                name: name@,
                first: match first {
                    Some(f) => Some(f@),
                    None => None,
                },
                body: stmt_views_from(body@, 0),
            },
        }
    }
}

/// A command stopped for outside work: where it resumes, and what its
/// result is for.
pub struct Waiting {
    pub resume: Resume,
    pub target: Target,
}

#[verifier::ext_equal]
pub struct WaitingView {
    pub resume: ResumeView,
    pub target: TargetView,
}

impl View for Waiting {
    type V = WaitingView;

    open spec fn view(&self) -> WaitingView {
        WaitingView { resume: self.resume@, target: self.target@ }
    }
}

/// The whole evaluation state: pending tasks (last is next), the variable
/// store, the environment snapshot, and a possibly paused command.
pub struct Machine {
    pub tasks: Vec<Task>,
    pub ctx: Context,
    pub environment: Environment,
    pub waiting: Option<Waiting>,
}

#[verifier::ext_equal]
pub struct MachineView {
    pub tasks: Seq<TaskView>,
    pub ctx: Seq<(Seq<char>, Seq<char>)>,
    pub env: Seq<(Seq<char>, Seq<char>)>,
    pub waiting: Option<WaitingView>,
}

impl View for Machine {
    type V = MachineView;

    open spec fn view(&self) -> MachineView {
        MachineView {
            tasks: task_views(self.tasks@),
            ctx: self.ctx.entries(),
            env: self.environment.entries(),
            waiting: match self.waiting {
                Some(w) => Some(w@),
                None => None,
            },
        }
    }
}

/// What one machine step reported.
pub enum StepResult {
    /// A step of work ran to completion.
    Ran,
    /// The machine needs the caller to perform the action and hand back
    /// its event.
    NeedsEvent(Action),
    /// Every statement has been executed.
    Finished,
    /// The run is aborted.
    Failed(Fatal),
}

#[verifier::ext_equal]
pub enum StepResultView {
    Ran,
    NeedsEvent(ActionView),
    Finished,
    Failed(Fatal),
}

impl View for StepResult {
    type V = StepResultView;

    open spec fn view(&self) -> StepResultView {
        match self {
            StepResult::Ran => StepResultView::Ran,
            StepResult::NeedsEvent(a) => StepResultView::NeedsEvent(a@),
            StepResult::Finished => StepResultView::Finished,
            StepResult::Failed(f) => StepResultView::Failed(*f),
        }
    }
}

/// One transition: the machine afterwards, what was written, and what the
/// step reported.
#[verifier::ext_equal]
pub struct StepSpec {
    pub machine: MachineView,
    pub out: Seq<char>,
    pub err: Seq<char>,
    pub result: StepResultView,
}

/// The extra per-line binding a loop makes, decided once from the static
/// iterator command before the loop starts: `files` binds `file`, `git
/// tag` binds `tag`, and `constant` binds the singular of its first
/// argument's literal text. A `constant` iterator without an argument
/// aborts the run.
pub open spec fn loop_binding(name: Seq<char>, first: Option<Seq<char>>) -> Result<
    Option<Seq<char>>,
    Fatal,
> {
    if name == "git"@ && first == Some("tag"@) {
        Ok(Some("tag"@))
    } else if name == "files"@ {
        Ok(Some("file"@))
    } else if name == "constant"@ {
        match first {
            None => Err(Fatal::MissingArgument),
            Some(a) => match builtins::spec_depluralise(a) {
                Some(n) => Ok(Some(n)),
                None => Ok(None),
            },
        }
    } else {
        Ok(None)
    }
}

/// The lines a loop iterates over: the iterator's output split on
/// newlines, dropping the one trailing empty record a final newline
/// produces, then one trailing carriage return stripped from each line.
/// An empty output still yields one empty line.
pub open spec fn iteration_lines(out: Seq<char>) -> Seq<Seq<char>> {
    let records = text::split_newlines(out);
    let kept = if out.len() > 0 && out[out.len() - 1] == '\n' {
        records.drop_last()
    } else {
        records
    };
    kept.map_values(|l: Seq<char>| text::strip_cr(l))
}

/// The body statements as tasks, last statement deepest so the first runs
/// next.
pub open spec fn run_tasks(body: Seq<StatementView>) -> Seq<TaskView> {
    Seq::new(body.len(), |i: int| TaskView::Run(body[body.len() - 1 - i]))
}

/// Binding of `exit_code` after a command that produced a numeric status.
pub open spec fn bind_exit(
    ctx: Seq<(Seq<char>, Seq<char>)>,
    code: Option<int>,
) -> Seq<(Seq<char>, Seq<char>)> {
    match code {
        None => ctx,
        Some(c) => ctx_insert(ctx, "exit_code"@, text::int_dec(c)),
    }
}

/// How a finished command's outcome changes the machine, per target.
pub open spec fn absorb_outcome(m: MachineView, target: TargetView, o: OutcomeView) -> (
    MachineView,
    StepResultView,
) {
    match target {
        TargetView::Discard => (
            MachineView { ctx: bind_exit(m.ctx, o.exit_code), ..m },
            StepResultView::Ran,
        ),
        TargetView::Bind { name } => (
            MachineView {
                ctx: bind_exit(ctx_insert(m.ctx, name, o.output), o.exit_code),
                ..m
            },
            StepResultView::Ran,
        ),
        TargetView::Loop { name, first, body } => {
            let ctx1 = bind_exit(m.ctx, o.exit_code);
            match loop_binding(name, first) {
                Err(f) => (MachineView { ctx: ctx1, ..m }, StepResultView::Failed(f)),
                Ok(binding) => (
                    MachineView {
                        ctx: ctx1,
                        tasks: m.tasks.push(
                            TaskView::Iterate {
                                binding,
                                lines: iteration_lines(o.output),
                                at: 0,
                                body,
                            },
                        ),
                        ..m
                    },
                    StepResultView::Ran,
                ),
            }
        },
    }
}

/// How a command's step (finished, waiting, or fatal) changes the machine.
pub open spec fn absorb_step(m: MachineView, step: StepView, target: TargetView) -> (
    MachineView,
    StepResultView,
) {
    match step {
        StepView::Failed(f) => (m, StepResultView::Failed(f)),
        StepView::Waiting(a, res) => (
            MachineView { waiting: Some(WaitingView { resume: res, target }), ..m },
            StepResultView::NeedsEvent(a),
        ),
        StepView::Done(o) => absorb_outcome(m, target, o),
    }
}

pub open spec fn handle_begin(m: MachineView, b: BeginView, target: TargetView) -> StepSpec {
    let (m2, r) = absorb_step(m, b.step, target);
    StepSpec { machine: m2, out: b.out, err: b.err, result: r }
}

/// One step of the machine with no command paused: the next task runs, and
/// either completes, pauses on an action, finishes the program, or aborts.
pub open spec fn spec_step(m: MachineView) -> StepSpec {
    if m.tasks.len() == 0 {
        StepSpec {
            machine: m,
            out: Seq::empty(),
            err: Seq::empty(),
            result: StepResultView::Finished,
        }
    } else {
        let t = m.tasks.last();
        let m1 = MachineView { tasks: m.tasks.drop_last(), ..m };
        match t {
            TaskView::Run(stmt) => match stmt {
                StatementView::Command(cmd) => handle_begin(
                    m1,
                    spec_begin(cmd, m.ctx, m.env),
                    TargetView::Discard,
                ),
                StatementView::Declaration { name, value } => handle_begin(
                    m1,
                    spec_begin(value, m.ctx, m.env),
                    TargetView::Bind { name },
                ),
                StatementView::For { iterator, statements } => handle_begin(
                    m1,
                    spec_begin(iterator, m.ctx, m.env),
                    TargetView::Loop {
                        name: iterator.name,
                        first: if iterator.arguments.len() > 0 {
                            Some(iterator.arguments[0])
                        } else {
                            None
                        },
                        body: statements,
                    },
                ),
            },
            TaskView::Iterate { binding, lines, at, body } => {
                if at < 0 || at >= lines.len() {
                    StepSpec {
                        machine: m1,
                        out: Seq::empty(),
                        err: Seq::empty(),
                        result: StepResultView::Ran,
                    }
                } else {
                    let part = lines[at];
                    let ctx1 = match binding {
                        Some(nm) => ctx_insert(m.ctx, nm, part),
                        None => m.ctx,
                    };
                    let ctx2 = ctx_insert(ctx1, "iter"@, part);
                    let tasks2 = m1.tasks.push(
                        TaskView::Iterate { binding, lines, at: at + 1, body },
                    ) + run_tasks(body);
                    StepSpec {
                        machine: MachineView { tasks: tasks2, ctx: ctx2, ..m },
                        out: Seq::empty(),
                        err: Seq::empty(),
                        result: StepResultView::Ran,
                    }
                }
            },
        }
    }
}

/// Continuing a paused command with the event its action produced.
pub open spec fn spec_provide(m: MachineView, e: EventView) -> StepSpec {
    match m.waiting {
        Some(w) => handle_begin(
            MachineView { waiting: None, ..m },
            spec_resume(w.resume, e),
            w.target,
        ),
        None => StepSpec {
            machine: m,
            out: Seq::empty(),
            err: Seq::empty(),
            result: StepResultView::Ran,
        },
    }
}

/// A declaration binds its name to the command's evaluated output at
/// declaration time: once the command completes, the store maps the name
/// to that output text, every other name (but the reserved `exit_code`)
/// keeps its value, and the statement tree holds only commands, never
/// results, so the stored value is not re-evaluated later; only another
/// write to the same name can change it.
pub proof fn lemma_declaration_binds_output(
    m: MachineView,
    name: Seq<char>,
    value: CommandView,
    o: OutcomeView,
)
    requires
        m.waiting is None,
        m.tasks.len() > 0,
        m.tasks.last() == TaskView::Run(StatementView::Declaration { name, value }),
        spec_begin(value, m.ctx, m.env).step == StepView::Done(o),
        name != "exit_code"@,
    ensures
        crate::context::lookup(spec_step(m).machine.ctx, name) == Some(o.output),
        forall|other: Seq<char>|
            other != name && other != "exit_code"@ ==> crate::context::lookup(
                spec_step(m).machine.ctx,
                other,
            ) == crate::context::lookup(m.ctx, other),
{
    let bound = ctx_insert(m.ctx, name, o.output);
    crate::context::lemma_ctx_insert_same(m.ctx, name, o.output);
    match o.exit_code {
        None => {},
        Some(c) => {
            crate::context::lemma_ctx_insert_other(
                bound,
                "exit_code"@,
                text::int_dec(c),
                name,
            );
        },
    }
    assert forall|other: Seq<char>| other != name && other != "exit_code"@ implies
        crate::context::lookup(spec_step(m).machine.ctx, other) == crate::context::lookup(
        m.ctx,
        other,
    ) by {
        crate::context::lemma_ctx_insert_other(m.ctx, name, o.output, other);
        match o.exit_code {
            None => {},
            Some(c) => {
                crate::context::lemma_ctx_insert_other(
                    bound,
                    "exit_code"@,
                    text::int_dec(c),
                    other,
                );
            },
        }
    }
}

/// Each loop iteration re-binds `iter` to its own line and schedules a
/// fresh copy of the body, so every argument in the body is interpolated
/// again against the store as it then stands.
pub proof fn lemma_iteration_rebinds_iter(
    m: MachineView,
    binding: Option<Seq<char>>,
    lines: Seq<Seq<char>>,
    at: int,
    body: Seq<StatementView>,
)
    requires
        m.waiting is None,
        m.tasks.len() > 0,
        m.tasks.last() == (TaskView::Iterate { binding, lines, at, body }),
        0 <= at < lines.len(),
    ensures
        crate::context::lookup(spec_step(m).machine.ctx, "iter"@) == Some(lines[at]),
        match binding {
            Some(nm) => nm != "iter"@ ==> crate::context::lookup(
                spec_step(m).machine.ctx,
                nm,
            ) == Some(lines[at]),
            None => true,
        },
        spec_step(m).machine.tasks == m.tasks.drop_last().push(
            TaskView::Iterate { binding, lines, at: at + 1, body },
        ) + run_tasks(body),
{
    let ctx1 = match binding {
        Some(nm) => ctx_insert(m.ctx, nm, lines[at]),
        None => m.ctx,
    };
    crate::context::lemma_ctx_insert_same(ctx1, "iter"@, lines[at]);
    match binding {
        Some(nm) => {
            crate::context::lemma_ctx_insert_same(m.ctx, nm, lines[at]);
            if nm != "iter"@ {
                crate::context::lemma_ctx_insert_other(ctx1, "iter"@, lines[at], nm);
            }
        },
        None => {},
    }
}

fn binding_of(name: &Vec<char>, first: &Option<Vec<char>>) -> (r: Result<Option<Vec<char>>, Fatal>)
    ensures
        ({
            let fv = match first {
                Some(f) => Some(f@),
                None => None::<Seq<char>>,
            };
            match r {
                Ok(Some(b)) => loop_binding(name@, fv) == Ok::<Option<Seq<char>>, Fatal>(
                    Some(b@),
                ),
                Ok(None) => loop_binding(name@, fv) == Ok::<Option<Seq<char>>, Fatal>(None),
                Err(f) => loop_binding(name@, fv) == Err::<Option<Seq<char>>, Fatal>(f),
            }
        }),
{
    if text::equals_str(name, "git") {
        match first {
            Some(f) => {
                if text::equals_str(f, "tag") {
                    return Ok(Some(text::str_to_chars("tag")));
                }
            },
            None => {},
        }
    }
    if text::equals_str(name, "files") {
        return Ok(Some(text::str_to_chars("file")));
    }
    if text::equals_str(name, "constant") {
        return match first {
            None => Err(Fatal::MissingArgument),
            Some(a) => match builtins::depluralise_text(a) {
                Some(n) => Ok(Some(n)),
                None => Ok(None),
            },
        };
    }
    Ok(None)
}

/// Splits an iterator's output into the loop's lines.
fn lines_of_output(output: &Vec<char>) -> (r: Vec<Vec<char>>)
    ensures
        crate::parsing::views_of(r@) == iteration_lines(output@),
{
    let ghost records = text::split_newlines(output@);
    let mut parts = text::split_on_newlines(output);
    if output.len() > 0 && output[output.len() - 1] == '\n' {
        proof {
            assert(records.len() >= 1);
        }
        let ghost before = parts@;
        parts.pop();
        proof {
            assert(parts@.len() == records.drop_last().len());
            assert(forall|j: int|
                0 <= j < parts@.len() ==> parts@[j] == before[j] && parts@[j]@
                    == records.drop_last()[j]);
        }
    }
    let ghost kept = if output@.len() > 0 && output@[output@.len() - 1] == '\n' {
        records.drop_last()
    } else {
        records
    };
    let mut r: Vec<Vec<char>> = Vec::new();
    let mut i: usize = 0;
    while i < parts.len()
        invariant
            i <= parts@.len(),
            r@.len() == i,
            parts@.len() == kept.len(),
            forall|j: int| 0 <= j < parts@.len() ==> parts@[j]@ == kept[j],
            forall|j: int| 0 <= j < i ==> r@[j]@ == text::strip_cr(kept[j]),
        decreases parts@.len() - i,
    {
        r.push(text::strip_trailing_cr(&parts[i]));
        i += 1;
    }
    proof {
        assert(crate::parsing::views_of(r@) =~= iteration_lines(output@));
    }
    r
}

fn duplicate_statements(v: &Vec<Statement>) -> (r: Vec<Statement>)
    ensures
        stmt_views_from(r@, 0) == stmt_views_from(v@, 0),
{
    let mut r: Vec<Statement> = Vec::new();
    let mut i: usize = 0;
    while i < v.len()
        invariant
            i <= v@.len(),
            r@.len() == i,
            forall|j: int| 0 <= j < i ==> r@[j]@ == v@[j]@,
        decreases v@.len() - i,
    {
        r.push(v[i].duplicate());
        i += 1;
    }
    proof {
        lemma_stmt_views_from(r@, 0);
        lemma_stmt_views_from(v@, 0);
        assert(stmt_views_from(r@, 0) =~= stmt_views_from(v@, 0));
    }
    r
}

impl Machine {
    /// Absorbs what a command's evaluation reported, under its target.
    fn absorb(&mut self, step: CommandStep, target: Target) -> (r: StepResult)
        ensures
            ({
                let (m2, rv) = absorb_step(old(self)@, step@, target@);
                final(self)@ == m2 && r@ == rv
            }),
    {
        match step {
            CommandStep::Failed(f) => StepResult::Failed(f),
            CommandStep::Waiting(a, res) => {
                self.waiting = Some(Waiting { resume: res, target });
                StepResult::NeedsEvent(a)
            },
            CommandStep::Done(o) => {
                match target {
                    Target::Discard => {
                        self.bind_exit_code(o.exit_code);
                        StepResult::Ran
                    },
                    Target::Bind { name } => {
                        self.ctx.insert(name, o.output);
                        self.bind_exit_code(o.exit_code);
                        StepResult::Ran
                    },
                    Target::Loop { name, first, body } => {
                        self.bind_exit_code(o.exit_code);
                        match binding_of(&name, &first) {
                            Err(f) => StepResult::Failed(f),
                            Ok(binding) => {
                                let lines = lines_of_output(&o.output);
                                let ghost t0 = task_views(self.tasks@);
                                self.tasks.push(
                                    Task::Iterate { binding, lines, at: 0, body },
                                );
                                proof {
                                    assert(task_views(self.tasks@) =~= t0.push(
                                        self.tasks@.last()@,
                                    ));
                                }
                                StepResult::Ran
                            },
                        }
                    },
                }
            },
        }
    }

    fn bind_exit_code(&mut self, code: Option<i32>)
        ensures
            final(self)@ == (MachineView {
                ctx: bind_exit(
                    old(self)@.ctx,
                    match code {
                        Some(c) => Some(c as int),
                        None => None,
                    },
                ),
                ..old(self)@
            }),
    {
        match code {
            None => {
                proof {
                    assert(self@ =~= old(self)@);
                }
            },
            Some(c) => {
                let name = text::str_to_chars("exit_code");
                let value = text::i32_dec(c);
                self.ctx.insert(name, value);
            },
        }
    }

    /// Runs the next task. The caller must not be holding an unanswered
    /// action; `provide` continues a paused command.
    pub fn step(&mut self) -> (r: (Effects, StepResult))
        requires
            old(self)@.waiting is None,
        ensures
            ({
                let s = spec_step(old(self)@);
                final(self)@ == s.machine && r.0@.out == s.out && r.0@.err == s.err && r.1@
                    == s.result
            }),
    {
        let ghost m0 = self@;
        match self.tasks.pop() {
            None => (
                Effects { out: Vec::new(), err: Vec::new() },
                StepResult::Finished,
            ),
            Some(task) => {
                proof {
                    assert(task_views(self.tasks@) =~= m0.tasks.drop_last());
                    assert(task@ == m0.tasks.last());
                }
                match task {
                    Task::Run(stmt) => match stmt {
                        Statement::Command(cmd) => {
                            let (eff, cs) = evaluate::evaluate_command(
                                &cmd,
                                &self.ctx,
                                &self.environment,
                            );
                            let r = self.absorb(cs, Target::Discard);
                            (eff, r)
                        },
                        Statement::Declaration { name, value } => {
                            let (eff, cs) = evaluate::evaluate_command(
                                &value,
                                &self.ctx,
                                &self.environment,
                            );
                            let r = self.absorb(cs, Target::Bind { name });
                            (eff, r)
                        },
                        Statement::For { iterator, statements } => {
                            let (eff, cs) = evaluate::evaluate_command(
                                &iterator,
                                &self.ctx,
                                &self.environment,
                            );
                            let first: Option<Vec<char>> = if iterator.arguments.len() > 0 {
                                Some(crate::ast::Argument::duplicate(&iterator.arguments[0]).0)
                            } else {
                                None
                            };
                            let r = self.absorb(
                                cs,
                                Target::Loop { name: iterator.name, first, body: statements },
                            );
                            (eff, r)
                        },
                    },
                    Task::Iterate { binding, lines, at, body } => {
                        if at >= lines.len() {
                            (
                                Effects { out: Vec::new(), err: Vec::new() },
                                StepResult::Ran,
                            )
                        } else {
                            let part = text::copy_text(&lines[at]);
                            match &binding {
                                Some(nm) => {
                                    let nm2 = text::copy_text(nm);
                                    let p2 = text::copy_text(&part);
                                    self.ctx.insert(nm2, p2);
                                },
                                None => {},
                            }
                            let iter_name = text::str_to_chars("iter");
                            self.ctx.insert(iter_name, part);
                            let body_copy = duplicate_statements(&body);
                            let ghost t0 = task_views(self.tasks@);
                            let ghost bodyv = stmt_views_from(body@, 0);
                            self.tasks.push(
                                Task::Iterate { binding, lines, at: at + 1, body },
                            );
                            proof {
                                assert(task_views(self.tasks@) =~= t0.push(
                                    self.tasks@.last()@,
                                ));
                            }
                            let mut rest = body_copy;
                            let ghost base = task_views(self.tasks@);
                            let ghost cafter = self.ctx.entries();
                            let ghost eafter = self.environment.entries();
                            let ghost wafter = self@.waiting;
                            proof {
                                lemma_stmt_views_from(rest@, 0);
                                assert(stmt_views_from(rest@, 0) =~= bodyv.subrange(
                                    0,
                                    rest@.len() as int,
                                ));
                                assert(task_views(self.tasks@) =~= base + run_tasks(
                                    bodyv,
                                ).subrange(0, 0));
                            }
                            loop
                                invariant
                                    stmt_views_from(rest@, 0) == bodyv.subrange(
                                        0,
                                        rest@.len() as int,
                                    ),
                                    rest@.len() <= bodyv.len(),
                                    task_views(self.tasks@) == base + run_tasks(bodyv).subrange(
                                        0,
                                        bodyv.len() - rest@.len(),
                                    ),
                                    self.ctx.entries() == cafter,
                                    self.environment.entries() == eafter,
                                    self@.waiting == wafter,
                                ensures
                                    rest@.len() == 0,
                                    task_views(self.tasks@) == base + run_tasks(bodyv).subrange(
                                        0,
                                        bodyv.len() as int,
                                    ),
                                    self.ctx.entries() == cafter,
                                    self.environment.entries() == eafter,
                                    self@.waiting == wafter,
                                decreases rest@.len(),
                            {
                                let ghost restv = rest@;
                                match rest.pop() {
                                    None => {
                                        break ;
                                    },
                                    Some(st) => {
                                        proof {
                                            lemma_stmt_views_from(restv, 0);
                                            lemma_stmt_views_from(rest@, 0);
                                            assert(st@ == stmt_views_from(restv, 0)[restv.len()
                                                - 1]);
                                            assert(st@ == bodyv[restv.len() - 1]);
                                            assert(stmt_views_from(rest@, 0) =~= bodyv.subrange(
                                                0,
                                                rest@.len() as int,
                                            ));
                                        }
                                        let ghost tb = task_views(self.tasks@);
                                        self.tasks.push(Task::Run(st));
                                        proof {
                                            assert(task_views(self.tasks@) =~= tb.push(
                                                TaskView::Run(st@),
                                            ));
                                            assert(run_tasks(bodyv)[bodyv.len() - restv.len()]
                                                == TaskView::Run(bodyv[restv.len() - 1]));
                                            assert(task_views(self.tasks@) =~= base + run_tasks(
                                                bodyv,
                                            ).subrange(0, bodyv.len() - rest@.len()));
                                        }
                                    },
                                }
                            }
                            proof {
                                assert(run_tasks(bodyv).subrange(
                                    0,
                                    bodyv.len() as int,
                                ) =~= run_tasks(bodyv));
                                let sv = spec_step(m0).machine;
                                assert(rest@.len() == 0);
                                assert(self@.env == sv.env);
                                assert(self@.waiting == sv.waiting);
                                assert(self@.ctx == sv.ctx);
                                assert(self@.tasks =~= sv.tasks);
                                assert(self@ =~= sv);
                            }
                            (
                                Effects { out: Vec::new(), err: Vec::new() },
                                StepResult::Ran,
                            )
                        }
                    },
                }
            },
        }
    }

    /// Continues the paused command with the event its action produced.
    pub fn provide(&mut self, event: Event) -> (r: (Effects, StepResult))
        requires
            old(self)@.waiting matches Some(w) && event_fits(w.resume, event@),
        ensures
            ({
                let s = spec_provide(old(self)@, event@);
                final(self)@ == s.machine && r.0@.out == s.out && r.0@.err == s.err && r.1@
                    == s.result
            }),
    {
        let w = self.waiting.take();
        match w {
            None => (
                Effects { out: Vec::new(), err: Vec::new() },
                StepResult::Ran,
            ),
            Some(w) => {
                let (eff, cs) = evaluate::resume_command(w.resume, event);
                let r = self.absorb(cs, w.target);
                (eff, r)
            },
        }
    }

    /// Whether the machine is stopped on an unanswered action.
    pub fn awaiting(&self) -> (r: bool)
        ensures
            r == (self@.waiting is Some),
    {
        match &self.waiting {
            Some(_) => true,
            None => false,
        }
    }
}

/// Begins evaluating a program: the statements become pending tasks over an
/// empty variable store, and the caller drives the machine with `step` and
/// `provide` until it reports `Finished` or `Failed`.
pub fn evaluate_program(program: Program, environment: Environment) -> (m: Machine)
    ensures
        m@.tasks == run_tasks(program@),
        m@.ctx == Seq::<(Seq<char>, Seq<char>)>::empty(),
        m@.env == environment.entries(),
        m@.waiting is None,
{
    let ghost pv = program@;
    let mut stmts = program.0;
    proof {
        lemma_stmt_views_from(stmts@, 0);
    }
    let mut tasks: Vec<Task> = Vec::new();
    proof {
        assert(stmt_views_from(stmts@, 0) =~= pv.subrange(0, stmts@.len() as int));
        assert(task_views(tasks@) =~= run_tasks(pv).subrange(0, 0));
    }
    loop
        invariant
            stmt_views_from(stmts@, 0) == pv.subrange(0, stmts@.len() as int),
            stmts@.len() <= pv.len(),
            task_views(tasks@) == run_tasks(pv).subrange(0, pv.len() - stmts@.len()),
        ensures
            stmts@.len() == 0,
            task_views(tasks@) == run_tasks(pv).subrange(0, pv.len() as int),
        decreases stmts@.len(),
    {
        let ghost restv = stmts@;
        match stmts.pop() {
            None => {
                break ;
            },
            Some(st) => {
                proof {
                    lemma_stmt_views_from(restv, 0);
                    lemma_stmt_views_from(stmts@, 0);
                    assert(st@ == stmt_views_from(restv, 0)[restv.len() - 1]);
                    assert(st@ == pv[restv.len() - 1]);
                    assert(stmt_views_from(stmts@, 0) =~= pv.subrange(0, stmts@.len() as int));
                }
                let ghost tb = task_views(tasks@);
                tasks.push(Task::Run(st));
                proof {
                    assert(task_views(tasks@) =~= tb.push(TaskView::Run(st@)));
                    assert(run_tasks(pv)[pv.len() - restv.len()] == TaskView::Run(pv[restv.len()
                        - 1]));
                    assert(task_views(tasks@) =~= run_tasks(pv).subrange(
                        0,
                        pv.len() - stmts@.len(),
                    ));
                }
            },
        }
    }
    proof {
        assert(run_tasks(pv).subrange(0, pv.len() as int) =~= run_tasks(pv));
        assert(stmts@.len() == 0);
        assert(task_views(tasks@) == run_tasks(pv));
    }
    let m = Machine { tasks, ctx: Context::new(), environment, waiting: None };
    proof {
        assert(m@.tasks == run_tasks(pv));
        assert(m@.ctx =~= Seq::<(Seq<char>, Seq<char>)>::empty());
    }
    m
}

} // verus!
