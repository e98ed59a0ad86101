//! The command dispatcher. A command is evaluated against the variable
//! store and the injected environment snapshot; pure builtins finish at
//! once, while commands that need outside work (a process, the filesystem,
//! glob expansion) return an `Action` for the caller to perform and resume
//! with an `Event`. Everything written to the output streams is returned as
//! `Effects`.

use vstd::prelude::*;

use crate::ast::{Argument, Command, CommandView};
use crate::builtins;
use crate::context::{dump_context, lookup, Context, Environment};
use crate::interpolate::{self, diag_views, spec_interpolate};
use crate::parsing::views_of;
use crate::text;

verus! {

/// The conditions that abort the whole run, as distinct from builtin
/// failures that only write a diagnostic and continue.
#[derive(Clone, Copy, Debug, PartialEq, Eq, Structural)]
pub enum Fatal {
    /// An argument ends in a lone backslash, which interpolation cannot
    /// finish.
    UnterminatedEscape,
    /// A `repeat` count that does not parse as a non-negative integer.
    InvalidRepeatCount,
    /// A directory handed to a file copy or move, which is unsupported.
    DirectoryUnsupported,
    /// A builtin invoked without an argument it requires.
    MissingArgument,
    /// A result that cannot fit in the address space.
    OutputTooLarge,
}

/// Outside work the evaluator asks its caller to perform.
pub enum Action {
    /// Spawn a program with arguments and extra child environment
    /// variables, capturing merged standard output and error in write
    /// order.
    Spawn { program: Vec<char>, arguments: Vec<Vec<char>>, environment: Vec<(Vec<char>, Vec<char>)> },
    /// Expand a glob pattern against the filesystem.
    Glob { pattern: Vec<char> },
    /// Read a whole file as text.
    ReadFile { path: Vec<char> },
    /// Write a whole file.
    WriteFile { path: Vec<char>, content: Vec<char> },
    /// Remove a file or an empty directory.
    RemovePath { path: Vec<char> },
    /// Copy a file, deleting the source when `remove_source` holds.
    TransferFile { from: Vec<char>, to: Vec<char>, remove_source: bool },
}

/// What performing an `Action` produced.
pub enum Event {
    /// A spawned child finished: its merged output and its exit code, if
    /// any.
    Finished { output: Vec<char>, exit_code: Option<i32> },
    /// Glob expansion finished: the matched paths in order, or the error's
    /// text.
    Matches { result: Result<Vec<Vec<char>>, Vec<char>> },
    /// A file read finished: its content, or nothing on failure.
    FileContent { content: Option<Vec<char>> },
    /// A file write finished.
    Written { ok: bool },
    /// A removal finished.
    Removed { ok: bool },
    /// A file transfer finished.
    Transferred { outcome: TransferOutcome },
}

pub enum TransferOutcome {
    Done,
    /// The source is a directory, which the interpreter does not support.
    Directory,
    /// The transfer failed; the text describes the error.
    Failed(Vec<char>),
}

/// Where a command left off when it asked for outside work.
pub enum Resume {
    Spawned,
    Globbed,
    ReadWhole { path: Vec<char> },
    WroteWhole { path: Vec<char> },
    RemovedPath,
    Transferring { moving: bool },
    AppendRead { path: Vec<char>, suffix: Vec<char> },
    AppendWrote { path: Vec<char> },
}

/// A finished command: its output text and its exit code, if it has one.
pub struct CommandOutcome {
    pub output: Vec<char>,
    pub exit_code: Option<i32>,
}

/// How far evaluating a command got.
pub enum CommandStep {
    Done(CommandOutcome),
    Waiting(Action, Resume),
    Failed(Fatal),
}

/// What a command wrote to the two output streams.
pub struct Effects {
    pub out: Vec<char>,
    pub err: Vec<char>,
}

#[verifier::ext_equal]
pub enum ActionView {
    Spawn { program: Seq<char>, arguments: Seq<Seq<char>>, environment: Seq<(Seq<char>, Seq<char>)> },
    Glob { pattern: Seq<char> },
    ReadFile { path: Seq<char> },
    WriteFile { path: Seq<char>, content: Seq<char> },
    RemovePath { path: Seq<char> },
    TransferFile { from: Seq<char>, to: Seq<char>, remove_source: bool },
}

#[verifier::ext_equal]
pub enum EventView {
    Finished { output: Seq<char>, exit_code: Option<int> },
    Matches { result: Result<Seq<Seq<char>>, Seq<char>> },
    FileContent { content: Option<Seq<char>> },
    Written { ok: bool },
    Removed { ok: bool },
    Transferred { outcome: TransferOutcomeView },
}

#[verifier::ext_equal]
pub enum TransferOutcomeView {
    Done,
    Directory,
    Failed(Seq<char>),
}

#[verifier::ext_equal]
pub enum ResumeView {
    Spawned,
    Globbed,
    ReadWhole { path: Seq<char> },
    WroteWhole { path: Seq<char> },
    RemovedPath,
    Transferring { moving: bool },
    AppendRead { path: Seq<char>, suffix: Seq<char> },
    AppendWrote { path: Seq<char> },
}

#[verifier::ext_equal]
pub struct OutcomeView {
    pub output: Seq<char>,
    pub exit_code: Option<int>,
}

#[verifier::ext_equal]
pub enum StepView {
    Done(OutcomeView),
    Waiting(ActionView, ResumeView),
    Failed(Fatal),
}

#[verifier::ext_equal]
pub struct EffectsView {
    pub out: Seq<char>,
    pub err: Seq<char>,
}

pub open spec fn pair_views(v: Seq<(Vec<char>, Vec<char>)>) -> Seq<(Seq<char>, Seq<char>)> {
    v.map_values(|p: (Vec<char>, Vec<char>)| (p.0@, p.1@))
}

impl View for Action {
    type V = ActionView;

    open spec fn view(&self) -> ActionView {
        match self {
            Action::Spawn { program, arguments, environment } => ActionView::Spawn {
                program: program@,
                arguments: views_of(arguments@),
                environment: pair_views(environment@),
            },
            Action::Glob { pattern } => ActionView::Glob { pattern: pattern@ },
            Action::ReadFile { path } => ActionView::ReadFile { path: path@ },
            Action::WriteFile { path, content } => ActionView::WriteFile {
                path: path@,
                content: content@,
            },
            Action::RemovePath { path } => ActionView::RemovePath { path: path@ },
            Action::TransferFile { from, to, remove_source } => ActionView::TransferFile {
                from: from@,
                to: to@,
                remove_source: *remove_source,
            },
        }
    }
}

impl View for Event {
    type V = EventView;

    open spec fn view(&self) -> EventView {
        match self {
            Event::Finished { output, exit_code } => EventView::Finished {
                output: output@,
                exit_code: match exit_code {
                    Some(c) => Some(*c as int),
                    None => None,
                },
            },
            Event::Matches { result } => EventView::Matches {
                result: match result {
                    Ok(paths) => Ok(views_of(paths@)),
                    Err(m) => Err(m@),
                },
            },
            Event::FileContent { content } => EventView::FileContent {
                content: match content {
                    Some(c) => Some(c@),
                    None => None,
                },
            },
            Event::Written { ok } => EventView::Written { ok: *ok },
            Event::Removed { ok } => EventView::Removed { ok: *ok },
            Event::Transferred { outcome } => EventView::Transferred { outcome: outcome@ },
        }
    }
}

impl View for TransferOutcome {
    type V = TransferOutcomeView;

    open spec fn view(&self) -> TransferOutcomeView {
        match self {
            TransferOutcome::Done => TransferOutcomeView::Done,
            TransferOutcome::Directory => TransferOutcomeView::Directory,
            TransferOutcome::Failed(m) => TransferOutcomeView::Failed(m@),
        }
    }
}

impl View for Resume {
    type V = ResumeView;

    open spec fn view(&self) -> ResumeView {
        match self {
            Resume::Spawned => ResumeView::Spawned,
            Resume::Globbed => ResumeView::Globbed,
            Resume::ReadWhole { path } => ResumeView::ReadWhole { path: path@ },
            Resume::WroteWhole { path } => ResumeView::WroteWhole { path: path@ },
            Resume::RemovedPath => ResumeView::RemovedPath,
            Resume::Transferring { moving } => ResumeView::Transferring { moving: *moving },
            Resume::AppendRead { path, suffix } => ResumeView::AppendRead {
                path: path@,
                suffix: suffix@,
            },
            Resume::AppendWrote { path } => ResumeView::AppendWrote { path: path@ },
        }
    }
}

impl View for CommandOutcome {
    type V = OutcomeView;

    open spec fn view(&self) -> OutcomeView {
        OutcomeView {
            output: self.output@,
            exit_code: match self.exit_code {
                Some(c) => Some(c as int),
                None => None,
            },
        }
    }
}

impl View for CommandStep {
    type V = StepView;

    open spec fn view(&self) -> StepView {
        match self {
            CommandStep::Done(o) => StepView::Done(o@),
            CommandStep::Waiting(a, r) => StepView::Waiting(a@, r@),
            CommandStep::Failed(f) => StepView::Failed(*f),
        }
    }
}

impl View for Effects {
    type V = EffectsView;

    open spec fn view(&self) -> EffectsView {
        EffectsView { out: self.out@, err: self.err@ }
    }
}

/// Diagnostics as the error stream receives them: each on its own line.
pub open spec fn diag_lines(diags: Seq<Seq<char>>) -> Seq<char>
    decreases diags.len(),
{
    if diags.len() == 0 {
        Seq::empty()
    } else {
        diag_lines(diags.drop_last()) + diags.last() + seq!['\n']
    }
}

/// The arguments a command consumes, interpolated in order: the effective
/// texts, the diagnostics, and whether interpolation finished on all of
/// them.
#[verifier::ext_equal]
pub struct ArgsView {
    pub texts: Seq<Seq<char>>,
    pub diags: Seq<Seq<char>>,
    pub ok: bool,
}

pub open spec fn args_prepend(texts: Seq<Seq<char>>, diags: Seq<Seq<char>>, rest: ArgsView)
    -> ArgsView {
    ArgsView { texts: texts + rest.texts, diags: diags + rest.diags, ok: rest.ok }
}

/// The arguments from index `i` on, interpolated left to right; the first
/// one interpolation cannot finish stops the run.
pub open spec fn args_eval_from(
    args: Seq<Seq<char>>,
    i: int,
    ctx: Seq<(Seq<char>, Seq<char>)>,
    env: Seq<(Seq<char>, Seq<char>)>,
) -> ArgsView
    decreases args.len() - i,
{
    if i < 0 || i >= args.len() {
        ArgsView { texts: Seq::empty(), diags: Seq::empty(), ok: true }
    } else {
        let a = spec_interpolate(args[i], ctx, env);
        if !a.ok {
            ArgsView { texts: Seq::empty(), diags: a.diags, ok: false }
        } else {
            args_prepend(seq![a.text], a.diags, args_eval_from(args, i + 1, ctx, env))
        }
    }
}

/// The first `k` arguments, or all of them if there are fewer.
pub open spec fn take_upto(args: Seq<Seq<char>>, k: int) -> Seq<Seq<char>> {
    if k <= args.len() {
        args.subrange(0, k)
    } else {
        args
    }
}

pub struct EvaluatedArgs {
    pub texts: Vec<Vec<char>>,
    pub diags: Vec<Vec<char>>,
    pub ok: bool,
}

proof fn lemma_args_step(
    full: ArgsView,
    t0: Seq<Seq<char>>,
    d0: Seq<Seq<char>>,
    st: Seq<Seq<char>>,
    sd: Seq<Seq<char>>,
    rest: ArgsView,
)
    requires
        full == args_prepend(t0, d0, args_prepend(st, sd, rest)),
    ensures
        full == args_prepend(t0 + st, d0 + sd, rest),
{
    assert(t0 + (st + rest.texts) =~= (t0 + st) + rest.texts);
    assert(d0 + (sd + rest.diags) =~= (d0 + sd) + rest.diags);
    assert(args_prepend(t0, d0, args_prepend(st, sd, rest)) =~= args_prepend(
        t0 + st,
        d0 + sd,
        rest,
    ));
}

/// Interpolates the first `k` arguments (or all, if fewer), in order.
#[verifier::loop_isolation(false)]
pub fn eval_args_upto(args: &Vec<Argument>, k: usize, ctx: &Context, environment: &Environment)
    -> (r: EvaluatedArgs)
    ensures
        ({
            let spec = args_eval_from(
                take_upto(views_of_args(args@), k as int),
                0,
                ctx.entries(),
                environment.entries(),
            );
            r.ok == spec.ok && diag_views(r.diags@) == spec.diags && views_of(r.texts@)
                == spec.texts
        }),
{
    let ghost ce = ctx.entries();
    let ghost ee = environment.entries();
    let ghost tk = take_upto(views_of_args(args@), k as int);
    let bound: usize = if k <= args.len() {
        k
    } else {
        args.len()
    };
    proof {
        assert(tk.len() == bound as int);
        assert(forall|j: int| 0 <= j < tk.len() ==> tk[j] == args@[j]@);
    }
    let ghost full = args_eval_from(tk, 0, ce, ee);
    let mut texts: Vec<Vec<char>> = Vec::new();
    let mut diags: Vec<Vec<char>> = Vec::new();
    let mut i: usize = 0;
    proof {
        assert(full =~= args_prepend(views_of(texts@), diag_views(diags@), full));
    }
    while i < bound
        invariant
            i <= bound,
            full == args_prepend(
                views_of(texts@),
                diag_views(diags@),
                args_eval_from(tk, i as int, ce, ee),
            ),
        decreases bound - i,
    {
        let ghost t0 = views_of(texts@);
        let ghost d0 = diag_views(diags@);
        let ghost av = spec_interpolate(tk[i as int], ce, ee);
        let (out, completed) = interpolate::evaluate_argument(&args[i], ctx, environment);
        let mut dd = diags;
        let mut j: usize = 0;
        proof {
            assert(d0 + diag_views(out.diagnostics@).subrange(0, 0) =~= d0);
        }
        while j < out.diagnostics.len()
            invariant
                j <= out.diagnostics@.len(),
                diag_views(dd@) == d0 + diag_views(out.diagnostics@).subrange(0, j as int),
            decreases out.diagnostics@.len() - j,
        {
            let ghost dprev = dd@;
            dd.push(text::sub_vec(&out.diagnostics[j], 0, out.diagnostics[j].len()));
            proof {
                let ghost jj = j as int;
                assert(out.diagnostics@[jj]@.subrange(0, out.diagnostics@[jj]@.len() as int)
                    =~= out.diagnostics@[jj]@);
                assert(dd@.len() == dprev.len() + 1);
                assert(dd@[dprev.len() as int]@ == out.diagnostics@[jj]@);
                assert(forall|k: int| 0 <= k < dprev.len() ==> dd@[k] == dprev[k]);
                assert(forall|k: int|
                    0 <= k < dprev.len() ==> diag_views(dd@)[k] == diag_views(dprev)[k]);
                let ghost rhs = d0 + diag_views(out.diagnostics@).subrange(0, j + 1);
                assert(diag_views(dd@).len() == rhs.len());
                assert forall|k: int| 0 <= k < dd@.len() implies diag_views(dd@)[k] == rhs[k] by {
                    if k < dprev.len() {
                        assert(diag_views(dprev)[k] == (d0 + diag_views(
                            out.diagnostics@,
                        ).subrange(0, j as int))[k]);
                        if k >= d0.len() {
                            assert((d0 + diag_views(out.diagnostics@).subrange(0, j as int))[k]
                                == diag_views(out.diagnostics@).subrange(0, j as int)[k
                                - d0.len()]);
                            assert(rhs[k] == diag_views(out.diagnostics@).subrange(0, j + 1)[k
                                - d0.len()]);
                        }
                    } else {
                        assert(diag_views(dd@)[k] == dd@[k]@);
                        assert(rhs[k] == diag_views(out.diagnostics@).subrange(0, j + 1)[j as int]);
                    }
                }
                assert(diag_views(dd@) =~= rhs);
            }
            j += 1;
        }
        diags = dd;
        proof {
            assert(diag_views(out.diagnostics@).subrange(
                0,
                out.diagnostics@.len() as int,
            ) =~= diag_views(out.diagnostics@));
            assert(diag_views(diags@) =~= d0 + av.diags);
        }
        if !completed {
            proof {
                assert(args_eval_from(tk, i as int, ce, ee) == ArgsView {
                    texts: Seq::<Seq<char>>::empty(),
                    diags: av.diags,
                    ok: false,
                });
                assert(full.texts =~= t0);
                assert(full.diags =~= d0 + av.diags);
                assert(!full.ok);
                assert(views_of(texts@) =~= full.texts);
            }
            return EvaluatedArgs { texts, diags, ok: false };
        }
        texts.push(out.text);
        proof {
            assert(views_of(texts@) =~= t0 + seq![av.text]);
            lemma_args_step(full, t0, d0, seq![av.text], av.diags, args_eval_from(
                tk,
                i + 1,
                ce,
                ee,
            ));
        }
        i += 1;
    }
    proof {
        assert(full.texts =~= views_of(texts@));
        assert(full.diags =~= diag_views(diags@));
        assert(full.ok);
    }
    EvaluatedArgs { texts, diags, ok: true }
}

/// The raw texts of a command's arguments.
pub open spec fn views_of_args(args: Seq<Argument>) -> Seq<Seq<char>> {
    args.map_values(|a: Argument| a@)
}

/// What evaluating one command writes and where it leaves off.
#[verifier::ext_equal]
pub struct BeginView {
    pub out: Seq<char>,
    pub err: Seq<char>,
    pub step: StepView,
}

pub open spec fn done_step(output: Seq<char>, code: Option<int>) -> StepView {
    StepView::Done(OutcomeView { output, exit_code: code })
}

pub open spec fn quiet(step: StepView, err: Seq<char>) -> BeginView {
    BeginView { out: Seq::empty(), err, step }
}

/// Evaluates the first `k` arguments; a pass that cannot finish or a
/// missing argument ends the command with the diagnostics written so far.
pub open spec fn args_or_fail(
    args: Seq<Seq<char>>,
    k: int,
    ctx: Seq<(Seq<char>, Seq<char>)>,
    env: Seq<(Seq<char>, Seq<char>)>,
) -> Result<ArgsView, BeginView> {
    let r = args_eval_from(take_upto(args, k), 0, ctx, env);
    if !r.ok {
        Err(quiet(StepView::Failed(Fatal::UnterminatedEscape), diag_lines(r.diags)))
    } else if args.len() < k {
        Err(quiet(StepView::Failed(Fatal::MissingArgument), diag_lines(r.diags)))
    } else {
        Ok(r)
    }
}

/// The stdout text `echo` builds: each non-empty evaluated argument, with a
/// space before every one that is not the first argument.
pub open spec fn echo_out(texts: Seq<Seq<char>>) -> Seq<char>
    decreases texts.len(),
{
    if texts.len() == 0 {
        Seq::empty()
    } else {
        echo_out(texts.drop_last()) + (if texts.last().len() > 0 {
            (if texts.len() > 1 {
                seq![' ']
            } else {
                Seq::<char>::empty()
            }) + texts.last()
        } else {
            Seq::<char>::empty()
        })
    }
}

pub open spec fn any_nonempty(texts: Seq<Seq<char>>) -> bool {
    exists|i: int| 0 <= i < texts.len() && texts[i].len() > 0
}

pub open spec fn spec_echo(
    args: Seq<Seq<char>>,
    ctx: Seq<(Seq<char>, Seq<char>)>,
    env: Seq<(Seq<char>, Seq<char>)>,
) -> BeginView {
    let r = args_eval_from(args, 0, ctx, env);
    if !r.ok {
        BeginView {
            out: echo_out(r.texts),
            err: diag_lines(r.diags),
            step: StepView::Failed(Fatal::UnterminatedEscape),
        }
    } else {
        let nl: Seq<char> = if args.len() == 0 || any_nonempty(r.texts) {
            seq!['\n']
        } else {
            Seq::empty()
        };
        BeginView {
            out: echo_out(r.texts) + nl,
            err: diag_lines(r.diags),
            step: done_step(Seq::empty(), None),
        }
    }
}

/// What `echo_stderr` writes: separators, diagnostics and texts interleaved
/// in evaluation order, all on the error stream.
#[verifier::ext_equal]
pub struct EchoErrView {
    pub err: Seq<char>,
    pub ok: bool,
}

pub open spec fn echo_err_from(
    args: Seq<Seq<char>>,
    i: int,
    ctx: Seq<(Seq<char>, Seq<char>)>,
    env: Seq<(Seq<char>, Seq<char>)>,
) -> EchoErrView
    decreases args.len() - i,
{
    if i < 0 || i >= args.len() {
        EchoErrView { err: Seq::empty(), ok: true }
    } else {
        let sep: Seq<char> = if i > 0 {
            seq![' ']
        } else {
            Seq::empty()
        };
        let a = spec_interpolate(args[i], ctx, env);
        if !a.ok {
            EchoErrView { err: sep + diag_lines(a.diags), ok: false }
        } else {
            let rest = echo_err_from(args, i + 1, ctx, env);
            EchoErrView { err: sep + diag_lines(a.diags) + a.text + rest.err, ok: rest.ok }
        }
    }
}

pub open spec fn spec_echo_stderr(
    args: Seq<Seq<char>>,
    ctx: Seq<(Seq<char>, Seq<char>)>,
    env: Seq<(Seq<char>, Seq<char>)>,
) -> BeginView {
    let e = echo_err_from(args, 0, ctx, env);
    if !e.ok {
        quiet(StepView::Failed(Fatal::UnterminatedEscape), e.err)
    } else {
        quiet(done_step(Seq::empty(), None), e.err + seq!['\n'])
    }
}

/// The evaluated texts that are not empty, in order; empty arguments are
/// dropped before a child process is spawned.
pub open spec fn nonempty_texts(texts: Seq<Seq<char>>) -> Seq<Seq<char>>
    decreases texts.len(),
{
    if texts.len() == 0 {
        Seq::empty()
    } else {
        nonempty_texts(texts.drop_last()) + (if texts.last().len() > 0 {
            seq![texts.last()]
        } else {
            Seq::<Seq<char>>::empty()
        })
    }
}

/// How `with` reads its leading arguments: alternating key/value pairs up
/// to a literal `run` token, pairs with empty values dropped.
pub enum WithScanView {
    Halted { diags: Seq<Seq<char>>, fatal: Fatal },
    Parsed { pairs: Seq<(Seq<char>, Seq<char>)>, diags: Seq<Seq<char>>, next: int },
}

pub open spec fn with_scan(
    args: Seq<Seq<char>>,
    i: int,
    ctx: Seq<(Seq<char>, Seq<char>)>,
    env: Seq<(Seq<char>, Seq<char>)>,
) -> WithScanView
    decreases args.len() - i,
{
    if i < 0 || i >= args.len() {
        WithScanView::Parsed { pairs: Seq::empty(), diags: Seq::empty(), next: i }
    } else if args[i] == "run"@ {
        WithScanView::Parsed { pairs: Seq::empty(), diags: Seq::empty(), next: i + 1 }
    } else {
        let k = spec_interpolate(args[i], ctx, env);
        if !k.ok {
            WithScanView::Halted { diags: k.diags, fatal: Fatal::UnterminatedEscape }
        } else if i + 1 >= args.len() {
            WithScanView::Halted { diags: k.diags, fatal: Fatal::MissingArgument }
        } else {
            let v = spec_interpolate(args[i + 1], ctx, env);
            if !v.ok {
                WithScanView::Halted { diags: k.diags + v.diags, fatal: Fatal::UnterminatedEscape }
            } else {
                match with_scan(args, i + 2, ctx, env) {
                    WithScanView::Halted { diags, fatal } => WithScanView::Halted {
                        diags: k.diags + v.diags + diags,
                        fatal,
                    },
                    WithScanView::Parsed { pairs, diags, next } => WithScanView::Parsed {
                        pairs: (if v.text.len() > 0 {
                            seq![(k.text, v.text)]
                        } else {
                            Seq::<(Seq<char>, Seq<char>)>::empty()
                        }) + pairs,
                        diags: k.diags + v.diags + diags,
                        next,
                    },
                }
            }
        }
    }
}

/// `run` and `with`: extra child environment pairs (for `with`), then the
/// program, then its arguments with empty ones dropped; the child runs with
/// merged output captured.
pub open spec fn spec_run(
    with_env: bool,
    args: Seq<Seq<char>>,
    ctx: Seq<(Seq<char>, Seq<char>)>,
    env: Seq<(Seq<char>, Seq<char>)>,
) -> BeginView {
    let scan = if with_env {
        with_scan(args, 0, ctx, env)
    } else {
        WithScanView::Parsed { pairs: Seq::empty(), diags: Seq::empty(), next: 0 }
    };
    match scan {
        WithScanView::Halted { diags, fatal } => quiet(StepView::Failed(fatal), diag_lines(diags)),
        WithScanView::Parsed { pairs, diags, next } => {
            if next >= args.len() {
                quiet(StepView::Failed(Fatal::MissingArgument), diag_lines(diags))
            } else {
                let p = spec_interpolate(args[next], ctx, env);
                if !p.ok {
                    quiet(
                        StepView::Failed(Fatal::UnterminatedEscape),
                        diag_lines(diags + p.diags),
                    )
                } else {
                    let r = args_eval_from(args, next + 1, ctx, env);
                    if !r.ok {
                        quiet(
                            StepView::Failed(Fatal::UnterminatedEscape),
                            diag_lines(diags + p.diags + r.diags),
                        )
                    } else {
                        quiet(
                            StepView::Waiting(
                                ActionView::Spawn {
                                    program: p.text,
                                    arguments: nonempty_texts(r.texts),
                                    environment: pairs,
                                },
                                ResumeView::Spawned,
                            ),
                            diag_lines(diags + p.diags + r.diags),
                        )
                    }
                }
            }
        },
    }
}

pub open spec fn spec_env_cmd(
    args: Seq<Seq<char>>,
    ctx: Seq<(Seq<char>, Seq<char>)>,
    env: Seq<(Seq<char>, Seq<char>)>,
) -> BeginView {
    match args_or_fail(args, 1, ctx, env) {
        Err(b) => b,
        Ok(r) => {
            let name = r.texts[0];
            match lookup(env, name) {
                Some(v) => quiet(done_step(v, Some(0)), diag_lines(r.diags)),
                None => quiet(
                    done_step(Seq::empty(), Some(1)),
                    diag_lines(r.diags) + "Could not find environment variable "@ + name + seq![
                        '\n',
                    ],
                ),
            }
        },
    }
}

pub open spec fn spec_transfer(
    moving: bool,
    args: Seq<Seq<char>>,
    ctx: Seq<(Seq<char>, Seq<char>)>,
    env: Seq<(Seq<char>, Seq<char>)>,
) -> BeginView {
    match args_or_fail(args, 2, ctx, env) {
        Err(b) => b,
        Ok(r) => quiet(
            StepView::Waiting(
                ActionView::TransferFile {
                    from: r.texts[0],
                    to: r.texts[1],
                    remove_source: moving,
                },
                ResumeView::Transferring { moving },
            ),
            diag_lines(r.diags),
        ),
    }
}

pub open spec fn spec_remove(
    args: Seq<Seq<char>>,
    ctx: Seq<(Seq<char>, Seq<char>)>,
    env: Seq<(Seq<char>, Seq<char>)>,
) -> BeginView {
    match args_or_fail(args, 1, ctx, env) {
        Err(b) => b,
        Ok(r) => quiet(
            StepView::Waiting(
                ActionView::RemovePath { path: r.texts[0] },
                ResumeView::RemovedPath,
            ),
            diag_lines(r.diags),
        ),
    }
}

pub open spec fn spec_files(
    args: Seq<Seq<char>>,
    ctx: Seq<(Seq<char>, Seq<char>)>,
    env: Seq<(Seq<char>, Seq<char>)>,
) -> BeginView {
    let r = args_eval_from(take_upto(args, 1), 0, ctx, env);
    if !r.ok {
        quiet(StepView::Failed(Fatal::UnterminatedEscape), diag_lines(r.diags))
    } else {
        let pattern: Seq<char> = if args.len() > 0 {
            r.texts[0]
        } else {
            Seq::empty()
        };
        quiet(
            StepView::Waiting(ActionView::Glob { pattern }, ResumeView::Globbed),
            diag_lines(r.diags),
        )
    }
}

pub open spec fn spec_write_cmd(
    args: Seq<Seq<char>>,
    ctx: Seq<(Seq<char>, Seq<char>)>,
    env: Seq<(Seq<char>, Seq<char>)>,
) -> BeginView {
    match args_or_fail(args, 2, ctx, env) {
        Err(b) => b,
        Ok(r) => quiet(
            StepView::Waiting(
                ActionView::WriteFile { path: r.texts[0], content: r.texts[1] },
                ResumeView::WroteWhole { path: r.texts[0] },
            ),
            diag_lines(r.diags),
        ),
    }
}

pub open spec fn spec_read_cmd(
    args: Seq<Seq<char>>,
    ctx: Seq<(Seq<char>, Seq<char>)>,
    env: Seq<(Seq<char>, Seq<char>)>,
) -> BeginView {
    match args_or_fail(args, 1, ctx, env) {
        Err(b) => b,
        Ok(r) => quiet(
            StepView::Waiting(
                ActionView::ReadFile { path: r.texts[0] },
                ResumeView::ReadWhole { path: r.texts[0] },
            ),
            diag_lines(r.diags),
        ),
    }
}

pub open spec fn spec_append_cmd(
    args: Seq<Seq<char>>,
    ctx: Seq<(Seq<char>, Seq<char>)>,
    env: Seq<(Seq<char>, Seq<char>)>,
) -> BeginView {
    match args_or_fail(args, 2, ctx, env) {
        Err(b) => b,
        Ok(r) => quiet(
            StepView::Waiting(
                ActionView::ReadFile { path: r.texts[0] },
                ResumeView::AppendRead { path: r.texts[0], suffix: r.texts[1] },
            ),
            diag_lines(r.diags),
        ),
    }
}

pub open spec fn spec_repeat_cmd(
    args: Seq<Seq<char>>,
    ctx: Seq<(Seq<char>, Seq<char>)>,
    env: Seq<(Seq<char>, Seq<char>)>,
) -> BeginView {
    match args_or_fail(args, 2, ctx, env) {
        Err(b) => b,
        Ok(r) => match text::spec_parse_count(r.texts[1]) {
            None => quiet(StepView::Failed(Fatal::InvalidRepeatCount), diag_lines(r.diags)),
            Some(n) => {
                if n * r.texts[0].len() > usize::MAX {
                    quiet(StepView::Failed(Fatal::OutputTooLarge), diag_lines(r.diags))
                } else {
                    quiet(
                        done_step(builtins::repeat_text(r.texts[0], n), None),
                        diag_lines(r.diags),
                    )
                }
            },
        },
    }
}

pub open spec fn spec_replace_cmd(
    args: Seq<Seq<char>>,
    ctx: Seq<(Seq<char>, Seq<char>)>,
    env: Seq<(Seq<char>, Seq<char>)>,
) -> BeginView {
    match args_or_fail(args, 3, ctx, env) {
        Err(b) => b,
        Ok(r) => quiet(
            done_step(builtins::spec_replace(r.texts[0], r.texts[1], r.texts[2]), None),
            diag_lines(r.diags),
        ),
    }
}

/// The joining `concatenate` performs: the non-empty evaluated arguments,
/// in order, joined by the separator; empty evaluated arguments are
/// dropped entirely.
pub open spec fn concat_join(texts: Seq<Seq<char>>, sep: Seq<char>) -> Seq<char>
    decreases texts.len(),
{
    if texts.len() == 0 {
        Seq::empty()
    } else {
        let head = concat_join(texts.drop_last(), sep);
        if texts.last().len() == 0 {
            head
        } else if head.len() > 0 {
            head + sep + texts.last()
        } else {
            texts.last()
        }
    }
}

pub open spec fn spec_concat(
    args: Seq<Seq<char>>,
    ctx: Seq<(Seq<char>, Seq<char>)>,
    env: Seq<(Seq<char>, Seq<char>)>,
) -> BeginView {
    let r = args_eval_from(args, 0, ctx, env);
    if !r.ok {
        quiet(StepView::Failed(Fatal::UnterminatedEscape), diag_lines(r.diags))
    } else {
        quiet(done_step(concat_join(r.texts, seq!['\n']), None), diag_lines(r.diags))
    }
}

pub open spec fn spec_concat_sep(
    args: Seq<Seq<char>>,
    ctx: Seq<(Seq<char>, Seq<char>)>,
    env: Seq<(Seq<char>, Seq<char>)>,
) -> BeginView {
    let r = args_eval_from(args, 0, ctx, env);
    if !r.ok {
        quiet(StepView::Failed(Fatal::UnterminatedEscape), diag_lines(r.diags))
    } else if args.len() < 1 {
        quiet(StepView::Failed(Fatal::MissingArgument), diag_lines(r.diags))
    } else {
        quiet(
            done_step(concat_join(r.texts.drop_first(), r.texts[0]), None),
            diag_lines(r.diags),
        )
    }
}

pub open spec fn spec_split_cmd(
    last: bool,
    keep_before: bool,
    args: Seq<Seq<char>>,
    ctx: Seq<(Seq<char>, Seq<char>)>,
    env: Seq<(Seq<char>, Seq<char>)>,
) -> BeginView {
    match args_or_fail(args, 2, ctx, env) {
        Err(b) => b,
        Ok(r) => {
            let p = if last {
                builtins::split_last(r.texts[0], r.texts[1])
            } else {
                builtins::split_first(r.texts[0], r.texts[1])
            };
            let out = match p {
                None => Seq::<char>::empty(),
                Some(q) => if keep_before {
                    q.0
                } else {
                    q.1
                },
            };
            quiet(done_step(out, None), diag_lines(r.diags))
        },
    }
}

pub open spec fn spec_line_cmd(
    first: bool,
    args: Seq<Seq<char>>,
    ctx: Seq<(Seq<char>, Seq<char>)>,
    env: Seq<(Seq<char>, Seq<char>)>,
) -> BeginView {
    match args_or_fail(args, 1, ctx, env) {
        Err(b) => b,
        Ok(r) => {
            let lines = text::spec_lines(r.texts[0]);
            let out: Seq<char> = if lines.len() == 0 {
                Seq::empty()
            } else if first {
                lines[0]
            } else {
                lines[lines.len() - 1]
            };
            quiet(done_step(out, None), diag_lines(r.diags))
        },
    }
}

pub open spec fn spec_size_cmd(
    args: Seq<Seq<char>>,
    ctx: Seq<(Seq<char>, Seq<char>)>,
    env: Seq<(Seq<char>, Seq<char>)>,
) -> BeginView {
    match args_or_fail(args, 1, ctx, env) {
        Err(b) => b,
        Ok(r) => quiet(
            done_step(text::dec_digits(text::utf8_len(r.texts[0])), None),
            diag_lines(r.diags),
        ),
    }
}

pub open spec fn spec_lines_cmd(
    args: Seq<Seq<char>>,
    ctx: Seq<(Seq<char>, Seq<char>)>,
    env: Seq<(Seq<char>, Seq<char>)>,
) -> BeginView {
    match args_or_fail(args, 1, ctx, env) {
        Err(b) => b,
        Ok(r) => quiet(
            done_step(text::dec_digits(text::spec_lines(r.texts[0]).len() as int), None),
            diag_lines(r.diags),
        ),
    }
}

pub open spec fn spec_trim_cmd(
    args: Seq<Seq<char>>,
    ctx: Seq<(Seq<char>, Seq<char>)>,
    env: Seq<(Seq<char>, Seq<char>)>,
) -> BeginView {
    match args_or_fail(args, 1, ctx, env) {
        Err(b) => b,
        Ok(r) => quiet(done_step(text::spec_trim(r.texts[0]), None), diag_lines(r.diags)),
    }
}

/// `if_equal A B THEN [ELSE]`: the three leading arguments must be present;
/// `A` and `B` are evaluated and compared, and only the selected branch
/// argument is evaluated at all.
pub open spec fn spec_if_equal(
    args: Seq<Seq<char>>,
    ctx: Seq<(Seq<char>, Seq<char>)>,
    env: Seq<(Seq<char>, Seq<char>)>,
) -> BeginView {
    if args.len() < 3 {
        quiet(StepView::Failed(Fatal::MissingArgument), Seq::empty())
    } else {
        let r = args_eval_from(take_upto(args, 2), 0, ctx, env);
        if !r.ok {
            quiet(StepView::Failed(Fatal::UnterminatedEscape), diag_lines(r.diags))
        } else if r.texts[0] == r.texts[1] {
            let c = spec_interpolate(args[2], ctx, env);
            if !c.ok {
                quiet(
                    StepView::Failed(Fatal::UnterminatedEscape),
                    diag_lines(r.diags + c.diags),
                )
            } else {
                quiet(done_step(c.text, None), diag_lines(r.diags + c.diags))
            }
        } else if args.len() >= 4 {
            let d = spec_interpolate(args[3], ctx, env);
            if !d.ok {
                quiet(
                    StepView::Failed(Fatal::UnterminatedEscape),
                    diag_lines(r.diags + d.diags),
                )
            } else {
                quiet(done_step(d.text, None), diag_lines(r.diags + d.diags))
            }
        } else {
            quiet(done_step(Seq::empty(), None), diag_lines(r.diags))
        }
    }
}

/// The fixed allow-list of external tools dispatched like `run` without
/// environment-pair parsing.
pub open spec fn is_known_program(n: Seq<char>) -> bool {
    n == "cargo"@ || n == "git"@ || n == "gh"@ || n == "hyperfine"@ || n == "jq"@ || n == "yq"@
        || n == "node"@ || n == "deno"@ || n == "bun"@ || n == "sqlite3"@ || n == "python"@ || n
        == "npm"@ || n == "bat"@
}

pub open spec fn spec_known(
    n: Seq<char>,
    args: Seq<Seq<char>>,
    ctx: Seq<(Seq<char>, Seq<char>)>,
    env: Seq<(Seq<char>, Seq<char>)>,
) -> BeginView {
    let r = args_eval_from(args, 0, ctx, env);
    if !r.ok {
        quiet(StepView::Failed(Fatal::UnterminatedEscape), diag_lines(r.diags))
    } else {
        quiet(
            StepView::Waiting(
                ActionView::Spawn {
                    program: n,
                    arguments: nonempty_texts(r.texts),
                    environment: Seq::empty(),
                },
                ResumeView::Spawned,
            ),
            diag_lines(r.diags),
        )
    }
}

pub open spec fn spec_literal(
    args: Seq<Seq<char>>,
    ctx: Seq<(Seq<char>, Seq<char>)>,
    env: Seq<(Seq<char>, Seq<char>)>,
) -> BeginView {
    if args.len() == 0 {
        quiet(StepView::Failed(Fatal::MissingArgument), Seq::empty())
    } else {
        let a = spec_interpolate(args[0], ctx, env);
        if !a.ok {
            quiet(StepView::Failed(Fatal::UnterminatedEscape), diag_lines(a.diags))
        } else {
            quiet(done_step(a.text, None), diag_lines(a.diags))
        }
    }
}

pub open spec fn spec_unknown(n: Seq<char>) -> BeginView {
    quiet(
        done_step(Seq::empty(), Some(1)),
        "unknown command '"@ + n + seq!['\'', '\n'],
    )
}

/// The command dispatcher's behaviour: which builtin the name selects, what
/// it writes, and whether it finishes, asks for outside work, or aborts.
pub open spec fn spec_begin(
    cmd: CommandView,
    ctx: Seq<(Seq<char>, Seq<char>)>,
    env: Seq<(Seq<char>, Seq<char>)>,
) -> BeginView {
    let n = cmd.name;
    let args = cmd.arguments;
    if n == "echo"@ || n == "echo_stdout"@ {
        spec_echo(args, ctx, env)
    } else if n == "echo_stderr"@ {
        spec_echo_stderr(args, ctx, env)
    } else if n == "run"@ || n == "with"@ {
        spec_run(n == "with"@, args, ctx, env)
    } else if n == "env"@ {
        spec_env_cmd(args, ctx, env)
    } else if n == "mv"@ || n == "move"@ {
        spec_transfer(true, args, ctx, env)
    } else if n == "cp"@ || n == "copy"@ {
        spec_transfer(false, args, ctx, env)
    } else if n == "rm"@ || n == "remove"@ {
        spec_remove(args, ctx, env)
    } else if n == "files"@ {
        spec_files(args, ctx, env)
    } else if n == "write"@ {
        spec_write_cmd(args, ctx, env)
    } else if n == "read"@ {
        spec_read_cmd(args, ctx, env)
    } else if n == "append"@ {
        spec_append_cmd(args, ctx, env)
    } else if n == "repeat"@ {
        spec_repeat_cmd(args, ctx, env)
    } else if n == "replace"@ {
        spec_replace_cmd(args, ctx, env)
    } else if n == "concatenate"@ {
        spec_concat(args, ctx, env)
    } else if n == "concatenate_separator"@ {
        spec_concat_sep(args, ctx, env)
    } else if n == "before"@ || n == "after"@ || n == "rbefore"@ || n == "rafter"@ {
        spec_split_cmd(
            n == "rbefore"@ || n == "rafter"@,
            n == "before"@ || n == "rbefore"@,
            args,
            ctx,
            env,
        )
    } else if n == "last_line"@ || n == "first_line"@ {
        spec_line_cmd(n == "first_line"@, args, ctx, env)
    } else if n == "size"@ {
        spec_size_cmd(args, ctx, env)
    } else if n == "lines"@ {
        spec_lines_cmd(args, ctx, env)
    } else if n == "trim"@ {
        spec_trim_cmd(args, ctx, env)
    } else if n == "if_equal"@ {
        spec_if_equal(args, ctx, env)
    } else if is_known_program(n) {
        spec_known(n, args, ctx, env)
    } else if n == "literal"@ || n == "constant"@ {
        spec_literal(args, ctx, env)
    } else if n == "noop"@ {
        quiet(done_step(Seq::empty(), None), Seq::empty())
    } else {
        spec_unknown(n)
    }
}

/// Whether an event answers what the paused command asked for.
pub open spec fn event_fits(r: ResumeView, e: EventView) -> bool {
    match r {
        ResumeView::Spawned => e is Finished,
        ResumeView::Globbed => e is Matches,
        ResumeView::ReadWhole { .. } => e is FileContent,
        ResumeView::WroteWhole { .. } => e is Written,
        ResumeView::RemovedPath => e is Removed,
        ResumeView::Transferring { .. } => e is Transferred,
        ResumeView::AppendRead { .. } => e is FileContent,
        ResumeView::AppendWrote { .. } => e is Written,
    }
}

/// The `files` output: matched paths joined by newlines, backslashes
/// turned into forward slashes.
pub open spec fn glob_join(paths: Seq<Seq<char>>) -> Seq<char>
    decreases paths.len(),
{
    if paths.len() == 0 {
        Seq::empty()
    } else {
        let head = glob_join(paths.drop_last());
        let item = builtins::spec_replace(paths.last(), seq!['\\'], seq!['/']);
        head + (if head.len() > 0 {
            seq!['\n']
        } else {
            Seq::<char>::empty()
        }) + item
    }
}

/// How a paused command finishes once its event arrives.
pub open spec fn spec_resume(r: ResumeView, e: EventView) -> BeginView {
    let silent_done = quiet(done_step(Seq::empty(), None), Seq::empty());
    match r {
        ResumeView::Spawned => match e {
            EventView::Finished { output, exit_code } => quiet(
                done_step(output, exit_code),
                Seq::empty(),
            ),
            _ => silent_done,
        },
        ResumeView::Globbed => match e {
            EventView::Matches { result } => match result {
                Ok(paths) => quiet(done_step(glob_join(paths), Some(0)), Seq::empty()),
                Err(m) => quiet(
                    done_step(Seq::empty(), Some(1)),
                    "Error reading files glob "@ + m + seq!['\n'],
                ),
            },
            _ => silent_done,
        },
        ResumeView::ReadWhole { path } => match e {
            EventView::FileContent { content } => match content {
                Some(c) => quiet(done_step(c, Some(0)), Seq::empty()),
                None => quiet(
                    done_step(Seq::empty(), Some(1)),
                    "Could not read "@ + path + seq!['\n'],
                ),
            },
            _ => silent_done,
        },
        ResumeView::WroteWhole { path } => match e {
            EventView::Written { ok } => if ok {
                quiet(done_step(Seq::empty(), Some(0)), Seq::empty())
            } else {
                quiet(
                    done_step(Seq::empty(), Some(1)),
                    "Could not write to "@ + path + seq!['\n'],
                )
            },
            _ => silent_done,
        },
        ResumeView::RemovedPath => match e {
            EventView::Removed { ok } => if ok {
                quiet(done_step(Seq::empty(), Some(0)), Seq::empty())
            } else {
                quiet(done_step(Seq::empty(), Some(1)), "unknown path item to remove\n"@)
            },
            _ => silent_done,
        },
        ResumeView::Transferring { moving } => match e {
            EventView::Transferred { outcome } => match outcome {
                TransferOutcomeView::Done => quiet(
                    done_step(Seq::empty(), Some(0)),
                    Seq::empty(),
                ),
                TransferOutcomeView::Directory => quiet(
                    StepView::Failed(Fatal::DirectoryUnsupported),
                    Seq::empty(),
                ),
                TransferOutcomeView::Failed(m) => quiet(
                    done_step(Seq::empty(), Some(0)),
                    (if moving {
                        "error moving file: "@
                    } else {
                        "error copying file: "@
                    }) + m + seq!['\n'],
                ),
            },
            _ => silent_done,
        },
        ResumeView::AppendRead { path, suffix } => match e {
            EventView::FileContent { content } => match content {
                Some(c) => quiet(
                    StepView::Waiting(
                        ActionView::WriteFile { path, content: c + suffix },
                        ResumeView::AppendWrote { path },
                    ),
                    Seq::empty(),
                ),
                None => quiet(
                    done_step(Seq::empty(), Some(1)),
                    "Could not read "@ + path + seq!['\n'],
                ),
            },
            _ => silent_done,
        },
        ResumeView::AppendWrote { path } => match e {
            EventView::Written { ok } => if ok {
                quiet(done_step(Seq::empty(), Some(0)), Seq::empty())
            } else {
                quiet(
                    done_step(Seq::empty(), Some(1)),
                    "Could not write to "@ + path + seq!['\n'],
                )
            },
            _ => silent_done,
        },
    }
}

proof fn lemma_args_eval_len(
    args: Seq<Seq<char>>,
    i: int,
    ctx: Seq<(Seq<char>, Seq<char>)>,
    env: Seq<(Seq<char>, Seq<char>)>,
)
    requires
        0 <= i <= args.len(),
        args_eval_from(args, i, ctx, env).ok,
    ensures
        args_eval_from(args, i, ctx, env).texts.len() == args.len() - i,
    decreases args.len() - i,
{
    if i < args.len() {
        let a = spec_interpolate(args[i], ctx, env);
        if a.ok {
            lemma_args_eval_len(args, i + 1, ctx, env);
        }
    }
}

/// Writes each diagnostic to the error stream on its own line.
#[verifier::loop_isolation(false)]
fn emit_diags(err: &mut Vec<char>, diags: &Vec<Vec<char>>)
    ensures
        final(err)@ == old(err)@ + diag_lines(diag_views(diags@)),
{
    let mut i: usize = 0;
    proof {
        assert(err@ =~= old(err)@ + diag_lines(diag_views(diags@).subrange(0, 0)));
    }
    while i < diags.len()
        invariant
            i <= diags@.len(),
            err@ == old(err)@ + diag_lines(diag_views(diags@).subrange(0, i as int)),
        decreases diags@.len() - i,
    {
        text::push_all(err, &diags[i]);
        err.push('\n');
        i += 1;
        proof {
            let ghost pfx = diag_views(diags@).subrange(0, i as int);
            assert(pfx.drop_last() =~= diag_views(diags@).subrange(0, i - 1));
            assert(pfx.last() == diags@[i - 1]@);
            assert(err@ =~= old(err)@ + (diag_lines(pfx.drop_last()) + pfx.last() + seq!['\n']));
        }
    }
    proof {
        assert(diag_views(diags@).subrange(0, diags@.len() as int) =~= diag_views(diags@));
    }
}

fn duplicate_text(v: &Vec<char>) -> (r: Vec<char>)
    ensures
        r@ == v@,
{
    let r = text::sub_vec(v, 0, v.len());
    proof {
        assert(r@ =~= v@);
    }
    r
}

/// The common opening of a fixed-arity builtin: its leading arguments
/// interpolated, their diagnostics written, and the command failed if a
/// pass could not finish or an argument is missing.
fn fixed_args(args: &Vec<Argument>, k: usize, ctx: &Context, environment: &Environment) -> (r:
    Result<(EvaluatedArgs, Vec<char>), (Effects, CommandStep)>)
    ensures
        ({
            let spec = args_or_fail(
                views_of_args(args@),
                k as int,
                ctx.entries(),
                environment.entries(),
            );
            match r {
                Ok(p) => match spec {
                    Ok(av) => p.0.ok && views_of(p.0.texts@) == av.texts && diag_views(p.0.diags@)
                        == av.diags && p.1@ == diag_lines(av.diags) && p.0.texts@.len() >= k,
                    Err(_) => false,
                },
                Err(p) => match spec {
                    Ok(_) => false,
                    Err(b) => p.0@.out == b.out && p.0@.err == b.err && p.1@ == b.step,
                },
            }
        }),
{
    let ghost a = views_of_args(args@);
    let ea = eval_args_upto(args, k, ctx, environment);
    let mut err: Vec<char> = Vec::new();
    emit_diags(&mut err, &ea.diags);
    if !ea.ok {
        return Err(
            (Effects { out: Vec::new(), err }, CommandStep::Failed(Fatal::UnterminatedEscape)),
        );
    }
    if args.len() < k {
        return Err((Effects { out: Vec::new(), err }, CommandStep::Failed(Fatal::MissingArgument)));
    }
    proof {
        lemma_args_eval_len(
            take_upto(a, k as int),
            0,
            ctx.entries(),
            environment.entries(),
        );
    }
    Ok((ea, err))
}

enum WithScanRes {
    Halted { diags: Vec<Vec<char>>, fatal: Fatal },
    Parsed { pairs: Vec<(Vec<char>, Vec<char>)>, diags: Vec<Vec<char>>, next: usize },
}

/// Reads `with`'s leading key/value pairs up to a literal `run` token.
fn with_scan_exec(args: &Vec<Argument>, i: usize, ctx: &Context, environment: &Environment) -> (r:
    WithScanRes)
    requires
        i <= args@.len(),
    ensures
        ({
            let spec = with_scan(
                views_of_args(args@),
                i as int,
                ctx.entries(),
                environment.entries(),
            );
            match r {
                WithScanRes::Halted { diags, fatal } => spec == (WithScanView::Halted {
                    diags: diag_views(diags@),
                    fatal,
                }),
                WithScanRes::Parsed { pairs, diags, next } => spec == (WithScanView::Parsed {
                    pairs: pair_views(pairs@),
                    diags: diag_views(diags@),
                    next: next as int,
                }),
            }
        }),
    decreases args@.len() - i,
{
    let ghost a = views_of_args(args@);
    let ghost ce = ctx.entries();
    let ghost ee = environment.entries();
    if i >= args.len() {
        let r = WithScanRes::Parsed { pairs: Vec::new(), diags: Vec::new(), next: i };
        proof {
            assert(pair_views(Seq::<(Vec<char>, Vec<char>)>::empty()) =~= Seq::<(
                Seq<char>,
                Seq<char>,
            )>::empty());
            assert(diag_views(Seq::<Vec<char>>::empty()) =~= Seq::<Seq<char>>::empty());
        }
        return r;
    }
    if text::equals_str(&args[i].0, "run") {
        let r = WithScanRes::Parsed { pairs: Vec::new(), diags: Vec::new(), next: i + 1 };
        proof {
            assert(pair_views(Seq::<(Vec<char>, Vec<char>)>::empty()) =~= Seq::<(
                Seq<char>,
                Seq<char>,
            )>::empty());
            assert(diag_views(Seq::<Vec<char>>::empty()) =~= Seq::<Seq<char>>::empty());
        }
        return r;
    }
    let (kout, kok) = interpolate::evaluate_argument(&args[i], ctx, environment);
    if !kok {
        return WithScanRes::Halted { diags: kout.diagnostics, fatal: Fatal::UnterminatedEscape };
    }
    if i + 1 >= args.len() {
        return WithScanRes::Halted { diags: kout.diagnostics, fatal: Fatal::MissingArgument };
    }
    let (vout, vok) = interpolate::evaluate_argument(&args[i + 1], ctx, environment);
    let mut diags = kout.diagnostics;
    let ghost kd = diag_views(diags@);
    append_diag_vec(&mut diags, vout.diagnostics);
    if !vok {
        return WithScanRes::Halted { diags, fatal: Fatal::UnterminatedEscape };
    }
    let ghost kv = spec_interpolate(a[i as int], ce, ee);
    let ghost vv = spec_interpolate(a[i + 1], ce, ee);
    proof {
        assert(diag_views(diags@) == kv.diags + vv.diags);
    }
    match with_scan_exec(args, i + 2, ctx, environment) {
        WithScanRes::Halted { diags: rest_diags, fatal } => {
            let ghost rd = diag_views(rest_diags@);
            append_diag_vec(&mut diags, rest_diags);
            WithScanRes::Halted { diags, fatal }
        },
        WithScanRes::Parsed { pairs: rest_pairs, diags: rest_diags, next } => {
            append_diag_vec(&mut diags, rest_diags);
            let head = vout.text.len() > 0;
            let mut pairs: Vec<(Vec<char>, Vec<char>)> = Vec::new();
            if head {
                pairs.push((kout.text, vout.text));
            }
            proof {
                if head {
                    assert(pair_views(pairs@) =~= seq![(kv.text, vv.text)]);
                } else {
                    assert(pair_views(pairs@) =~= Seq::<(Seq<char>, Seq<char>)>::empty());
                }
            }
            append_pair_vec(&mut pairs, rest_pairs);
            WithScanRes::Parsed { pairs, diags, next }
        },
    }
}

/// Appends diagnostics, preserving order.
fn append_diag_vec(dst: &mut Vec<Vec<char>>, src: Vec<Vec<char>>)
    ensures
        diag_views(final(dst)@) == diag_views(old(dst)@) + diag_views(src@),
{
    let mut s = src;
    let ghost d0 = diag_views(dst@);
    let ghost sv = diag_views(s@);
    let mut j: usize = 0;
    proof {
        assert(diag_views(dst@) =~= d0 + sv.subrange(0, 0));
    }
    while j < s.len()
        invariant
            j <= s@.len(),
            sv == diag_views(s@),
            diag_views(dst@) == d0 + sv.subrange(0, j as int),
        decreases s@.len() - j,
    {
        let ghost dprev = dst@;
        dst.push(duplicate_text(&s[j]));
        proof {
            let ghost jj = j as int;
            let ghost rhs = d0 + sv.subrange(0, jj + 1);
            assert(sv.len() == s@.len());
            assert(diag_views(dprev).len() == dprev.len());
            assert(dprev.len() == d0.len() + jj);
            assert(dst@ == dprev.push(dst@[dprev.len() as int]));
            assert(dst@[dprev.len() as int]@ == s@[jj]@);
            assert(diag_views(dst@).len() == rhs.len());
            assert forall|k: int| 0 <= k < dst@.len() implies diag_views(dst@)[k] == rhs[k] by {
                if k < dprev.len() {
                    assert(dst@[k] == dprev[k]);
                    assert(diag_views(dprev)[k] == (d0 + sv.subrange(0, jj))[k]);
                    if k >= d0.len() {
                        assert((d0 + sv.subrange(0, jj))[k] == sv.subrange(0, jj)[k - d0.len()]);
                        assert(rhs[k] == sv.subrange(0, jj + 1)[k - d0.len()]);
                    }
                } else {
                    assert(diag_views(dst@)[k] == dst@[k]@);
                    assert(rhs[k] == sv.subrange(0, jj + 1)[jj]);
                }
            }
            assert(diag_views(dst@) =~= rhs);
        }
        j += 1;
    }
    proof {
        assert(sv.subrange(0, s@.len() as int) =~= sv);
    }
}

/// Appends environment pairs, preserving order.
fn append_pair_vec(dst: &mut Vec<(Vec<char>, Vec<char>)>, src: Vec<(Vec<char>, Vec<char>)>)
    ensures
        pair_views(final(dst)@) == pair_views(old(dst)@) + pair_views(src@),
{
    let mut s = src;
    let ghost d0 = pair_views(dst@);
    let ghost sv = pair_views(s@);
    let mut j: usize = 0;
    proof {
        assert(pair_views(dst@) =~= d0 + sv.subrange(0, 0));
    }
    while j < s.len()
        invariant
            j <= s@.len(),
            sv == pair_views(s@),
            pair_views(dst@) == d0 + sv.subrange(0, j as int),
        decreases s@.len() - j,
    {
        let ghost dprev = dst@;
        let item = (duplicate_text(&s[j].0), duplicate_text(&s[j].1));
        dst.push(item);
        proof {
            let ghost jj = j as int;
            let ghost rhs = d0 + sv.subrange(0, jj + 1);
            assert(sv.len() == s@.len());
            assert(pair_views(dprev).len() == dprev.len());
            assert(dprev.len() == d0.len() + jj);
            assert((dst@[dprev.len() as int].0@, dst@[dprev.len() as int].1@) == sv[jj]);
            assert(pair_views(dst@).len() == rhs.len());
            assert forall|k: int| 0 <= k < dst@.len() implies pair_views(dst@)[k] == rhs[k] by {
                if k < dprev.len() {
                    assert(dst@[k] == dprev[k]);
                    assert(pair_views(dprev)[k] == (d0 + sv.subrange(0, jj))[k]);
                    if k >= d0.len() {
                        assert((d0 + sv.subrange(0, jj))[k] == sv.subrange(0, jj)[k - d0.len()]);
                        assert(rhs[k] == sv.subrange(0, jj + 1)[k - d0.len()]);
                    }
                } else {
                    assert(pair_views(dst@)[k] == (dst@[k].0@, dst@[k].1@));
                    assert(rhs[k] == sv.subrange(0, jj + 1)[jj]);
                }
            }
            assert(pair_views(dst@) =~= rhs);
        }
        j += 1;
    }
    proof {
        assert(sv.subrange(0, s@.len() as int) =~= sv);
    }
}

proof fn lemma_diag_lines_concat(a: Seq<Seq<char>>, b: Seq<Seq<char>>)
    ensures
        diag_lines(a + b) == diag_lines(a) + diag_lines(b),
    decreases b.len(),
{
    if b.len() == 0 {
        assert(a + b =~= a);
        assert(diag_lines(a) + diag_lines(b) =~= diag_lines(a));
    } else {
        lemma_diag_lines_concat(a, b.drop_last());
        assert((a + b).drop_last() =~= a + b.drop_last());
        assert((a + b).last() == b.last());
        assert(diag_lines(a) + (diag_lines(b.drop_last()) + b.last() + seq!['\n']) =~= (diag_lines(
            a,
        ) + diag_lines(b.drop_last())) + b.last() + seq!['\n']);
    }
}

/// Interpolates the arguments from index `from` on.
fn eval_args_tail(args: &Vec<Argument>, from: usize, ctx: &Context, environment: &Environment)
    -> (r: EvaluatedArgs)
    requires
        from <= args@.len(),
    ensures
        ({
            let spec = args_eval_from(
                views_of_args(args@),
                from as int,
                ctx.entries(),
                environment.entries(),
            );
            r.ok == spec.ok && diag_views(r.diags@) == spec.diags && views_of(r.texts@)
                == spec.texts
        }),
    decreases args@.len() - from,
{
    let ghost a = views_of_args(args@);
    let ghost ce = ctx.entries();
    let ghost ee = environment.entries();
    if from >= args.len() {
        let r = EvaluatedArgs { texts: Vec::new(), diags: Vec::new(), ok: true };
        proof {
            assert(diag_views(r.diags@) =~= Seq::<Seq<char>>::empty());
            assert(views_of(r.texts@) =~= Seq::<Seq<char>>::empty());
        }
        return r;
    }
    let (out, ok) = interpolate::evaluate_argument(&args[from], ctx, environment);
    if !ok {
        let r = EvaluatedArgs { texts: Vec::new(), diags: out.diagnostics, ok: false };
        proof {
            assert(views_of(r.texts@) =~= Seq::<Seq<char>>::empty());
        }
        return r;
    }
    let rest = eval_args_tail(args, from + 1, ctx, environment);
    let ghost av = spec_interpolate(a[from as int], ce, ee);
    let mut texts: Vec<Vec<char>> = Vec::new();
    texts.push(out.text);
    proof {
        assert(views_of(texts@) =~= seq![av.text]);
    }
    append_diag_vec(&mut texts, rest.texts);
    let mut diags = out.diagnostics;
    append_diag_vec(&mut diags, rest.diags);
    EvaluatedArgs { texts, diags, ok: rest.ok }
}

/// Appends texts, preserving order.
fn append_diag_vec_short(dst: &mut Vec<Vec<char>>, src: Vec<Vec<char>>)
    ensures
        views_of(final(dst)@) == views_of(old(dst)@) + views_of(src@),
{
    append_diag_vec(dst, src);
}

fn exec_echo(args: &Vec<Argument>, ctx: &Context, environment: &Environment) -> (r: (
    Effects,
    CommandStep,
))
    ensures
        ({
            let b = spec_echo(views_of_args(args@), ctx.entries(), environment.entries());
            r.0@.out == b.out && r.0@.err == b.err && r.1@ == b.step
        }),
{
    let ghost a = views_of_args(args@);
    let ea = eval_args_tail(args, 0, ctx, environment);
    let ghost tv = views_of(ea.texts@);
    let mut out: Vec<char> = Vec::new();
    let mut some = false;
    let mut i: usize = 0;
    proof {
        assert(out@ =~= echo_out(tv.subrange(0, 0)));
        assert(!any_nonempty(tv.subrange(0, 0)));
    }
    while i < ea.texts.len()
        invariant
            i <= ea.texts@.len(),
            tv == views_of(ea.texts@),
            out@ == echo_out(tv.subrange(0, i as int)),
            some == any_nonempty(tv.subrange(0, i as int)),
        decreases ea.texts@.len() - i,
    {
        let ghost prev = tv.subrange(0, i as int);
        if ea.texts[i].len() > 0 {
            if i > 0 {
                out.push(' ');
            }
            text::push_all(&mut out, &ea.texts[i]);
            some = true;
        }
        i += 1;
        proof {
            let ghost pfx = tv.subrange(0, i as int);
            assert(pfx.drop_last() =~= prev);
            assert(pfx.last() == ea.texts@[i - 1]@);
            assert(out@ =~= echo_out(pfx));
            if ea.texts@[i - 1]@.len() > 0 {
                assert(pfx[i - 1].len() > 0);
                assert(any_nonempty(pfx));
            } else {
                if any_nonempty(pfx) {
                    let k = choose|k: int| 0 <= k < pfx.len() && pfx[k].len() > 0;
                    assert(k < i - 1 ==> prev[k].len() > 0);
                }
            }
        }
    }
    proof {
        assert(tv.subrange(0, tv.len() as int) =~= tv);
    }
    let mut err: Vec<char> = Vec::new();
    emit_diags(&mut err, &ea.diags);
    if !ea.ok {
        return (Effects { out, err }, CommandStep::Failed(Fatal::UnterminatedEscape));
    }
    if args.len() == 0 || some {
        out.push('\n');
        proof {
            assert(out@ =~= echo_out(tv) + seq!['\n']);
        }
    } else {
        proof {
            assert(out@ =~= echo_out(tv) + Seq::<char>::empty());
        }
    }
    (
        Effects { out, err },
        CommandStep::Done(CommandOutcome { output: Vec::new(), exit_code: None }),
    )
}

fn echo_stderr_exec(args: &Vec<Argument>, i: usize, ctx: &Context, environment: &Environment)
    -> (r: (Vec<char>, bool))
    requires
        i <= args@.len(),
    ensures
        ({
            let e = echo_err_from(
                views_of_args(args@),
                i as int,
                ctx.entries(),
                environment.entries(),
            );
            r.0@ == e.err && r.1 == e.ok
        }),
    decreases args@.len() - i,
{
    let ghost a = views_of_args(args@);
    if i >= args.len() {
        let v: Vec<char> = Vec::new();
        proof {
            assert(v@ =~= Seq::<char>::empty());
        }
        return (v, true);
    }
    let mut err: Vec<char> = Vec::new();
    if i > 0 {
        err.push(' ');
        proof {
            assert(err@ =~= seq![' ']);
        }
    } else {
        proof {
            assert(err@ =~= Seq::<char>::empty());
        }
    }
    let (out, ok) = interpolate::evaluate_argument(&args[i], ctx, environment);
    emit_diags(&mut err, &out.diagnostics);
    if !ok {
        return (err, false);
    }
    text::push_all(&mut err, &out.text);
    let (rest, rok) = echo_stderr_exec(args, i + 1, ctx, environment);
    text::push_all(&mut err, &rest);
    (err, rok)
}

fn exec_run(
    with_env: bool,
    args: &Vec<Argument>,
    ctx: &Context,
    environment: &Environment,
) -> (r: (Effects, CommandStep))
    ensures
        ({
            let b = spec_run(with_env, views_of_args(args@), ctx.entries(), environment.entries());
            r.0@.out == b.out && r.0@.err == b.err && r.1@ == b.step
        }),
{
    let ghost a = views_of_args(args@);
    let ghost ce = ctx.entries();
    let ghost ee = environment.entries();
    let scan = if with_env {
        with_scan_exec(args, 0, ctx, environment)
    } else {
        WithScanRes::Parsed { pairs: Vec::new(), diags: Vec::new(), next: 0 }
    };
    proof {
        if !with_env {
            assert(pair_views(Seq::<(Vec<char>, Vec<char>)>::empty()) =~= Seq::<(
                Seq<char>,
                Seq<char>,
            )>::empty());
            assert(diag_views(Seq::<Vec<char>>::empty()) =~= Seq::<Seq<char>>::empty());
        }
    }
    match scan {
        WithScanRes::Halted { diags, fatal } => {
            let mut err: Vec<char> = Vec::new();
            emit_diags(&mut err, &diags);
            (Effects { out: Vec::new(), err }, CommandStep::Failed(fatal))
        },
        WithScanRes::Parsed { pairs, diags, next } => {
            let ghost dv = diag_views(diags@);
            let mut err: Vec<char> = Vec::new();
            emit_diags(&mut err, &diags);
            if next >= args.len() {
                return (
                    Effects { out: Vec::new(), err },
                    CommandStep::Failed(Fatal::MissingArgument),
                );
            }
            let (p, pok) = interpolate::evaluate_argument(&args[next], ctx, environment);
            let ghost pv = spec_interpolate(a[next as int], ce, ee);
            emit_diags(&mut err, &p.diagnostics);
            proof {
                lemma_diag_lines_concat(dv, pv.diags);
            }
            if !pok {
                return (
                    Effects { out: Vec::new(), err },
                    CommandStep::Failed(Fatal::UnterminatedEscape),
                );
            }
            let ea = eval_args_tail(args, next + 1, ctx, environment);
            let ghost rv = args_eval_from(a, next + 1, ce, ee);
            emit_diags(&mut err, &ea.diags);
            proof {
                lemma_diag_lines_concat(dv + pv.diags, rv.diags);
            }
            if !ea.ok {
                return (
                    Effects { out: Vec::new(), err },
                    CommandStep::Failed(Fatal::UnterminatedEscape),
                );
            }
            let mut fargs: Vec<Vec<char>> = Vec::new();
            let ghost tv = views_of(ea.texts@);
            let mut i: usize = 0;
            proof {
                assert(views_of(fargs@) =~= nonempty_texts(tv.subrange(0, 0)));
            }
            while i < ea.texts.len()
                invariant
                    i <= ea.texts@.len(),
                    tv == views_of(ea.texts@),
                    views_of(fargs@) == nonempty_texts(tv.subrange(0, i as int)),
                decreases ea.texts@.len() - i,
            {
                let ghost fprev = views_of(fargs@);
                if ea.texts[i].len() > 0 {
                    fargs.push(duplicate_text(&ea.texts[i]));
                }
                i += 1;
                proof {
                    let ghost pfx = tv.subrange(0, i as int);
                    assert(pfx.drop_last() =~= tv.subrange(0, i - 1));
                    assert(pfx.last() == ea.texts@[i - 1]@);
                    if ea.texts@[i - 1]@.len() > 0 {
                        assert(views_of(fargs@) =~= fprev + seq![pfx.last()]);
                    } else {
                        assert(views_of(fargs@) =~= fprev + Seq::<Seq<char>>::empty());
                    }
                }
            }
            proof {
                assert(tv.subrange(0, tv.len() as int) =~= tv);
            }
            (
                Effects { out: Vec::new(), err },
                CommandStep::Waiting(
                    Action::Spawn { program: p.text, arguments: fargs, environment: pairs },
                    Resume::Spawned,
                ),
            )
        },
    }
}

/// Evaluates one command against the variable store and the environment
/// snapshot: what it writes to the two streams, and either its outcome, the
/// outside action it needs, or the fatal condition it hit.
#[verifier::rlimit(100)]
pub fn evaluate_command(command: &Command, ctx: &Context, environment: &Environment) -> (r: (
    Effects,
    CommandStep,
))
    ensures
        ({
            let b = spec_begin(command@, ctx.entries(), environment.entries());
            r.0@.out == b.out && r.0@.err == b.err && r.1@ == b.step
        }),
{
    let ghost ce = ctx.entries();
    let ghost ee = environment.entries();
    let ghost a = views_of_args(command.arguments@);
    let n = &command.name;
    let args = &command.arguments;
    if text::equals_str(n, "echo") || text::equals_str(n, "echo_stdout") {
        exec_echo(args, ctx, environment)
    } else if text::equals_str(n, "echo_stderr") {
        let (mut err, ok) = echo_stderr_exec(args, 0, ctx, environment);
        if ok {
            let ghost e0 = err@;
            err.push('\n');
            proof {
                assert(err@ =~= e0 + seq!['\n']);
            }
            (
                Effects { out: Vec::new(), err },
                CommandStep::Done(CommandOutcome { output: Vec::new(), exit_code: None }),
            )
        } else {
            (Effects { out: Vec::new(), err }, CommandStep::Failed(Fatal::UnterminatedEscape))
        }
    } else if text::equals_str(n, "run") || text::equals_str(n, "with") {
        exec_run(text::equals_str(n, "with"), args, ctx, environment)
    } else if text::equals_str(n, "env") {
        match fixed_args(args, 1, ctx, environment) {
            Err(p) => p,
            Ok((ea, mut err)) => {
                match environment.get(&ea.texts[0]) {
                    Some(v) => (
                        Effects { out: Vec::new(), err },
                        CommandStep::Done(CommandOutcome { output: v, exit_code: Some(0) }),
                    ),
                    None => {
                        let ghost e0 = err@;
                        text::push_str(&mut err, "Could not find environment variable ");
                        text::push_all(&mut err, &ea.texts[0]);
                        err.push('\n');
                        proof {
                            assert(err@ =~= e0 + "Could not find environment variable "@
                                + ea.texts@[0]@ + seq!['\n']);
                        }
                        (
                            Effects { out: Vec::new(), err },
                            CommandStep::Done(
                                CommandOutcome { output: Vec::new(), exit_code: Some(1) },
                            ),
                        )
                    },
                }
            },
        }
    } else if text::equals_str(n, "mv") || text::equals_str(n, "move") || text::equals_str(
        n,
        "cp",
    ) || text::equals_str(n, "copy") {
        let moving = text::equals_str(n, "mv") || text::equals_str(n, "move");
        match fixed_args(args, 2, ctx, environment) {
            Err(p) => p,
            Ok((ea, err)) => (
                Effects { out: Vec::new(), err },
                CommandStep::Waiting(
                    Action::TransferFile {
                        from: duplicate_text(&ea.texts[0]),
                        to: duplicate_text(&ea.texts[1]),
                        remove_source: moving,
                    },
                    Resume::Transferring { moving },
                ),
            ),
        }
    } else if text::equals_str(n, "rm") || text::equals_str(n, "remove") {
        match fixed_args(args, 1, ctx, environment) {
            Err(p) => p,
            Ok((ea, err)) => (
                Effects { out: Vec::new(), err },
                CommandStep::Waiting(
                    Action::RemovePath { path: duplicate_text(&ea.texts[0]) },
                    Resume::RemovedPath,
                ),
            ),
        }
    } else if text::equals_str(n, "files") {
        let ea = eval_args_upto(args, 1, ctx, environment);
        let mut err: Vec<char> = Vec::new();
        emit_diags(&mut err, &ea.diags);
        if !ea.ok {
            return (
                Effects { out: Vec::new(), err },
                CommandStep::Failed(Fatal::UnterminatedEscape),
            );
        }
        let pattern: Vec<char> = if args.len() > 0 {
            proof {
                lemma_args_eval_len(take_upto(a, 1), 0, ce, ee);
            }
            duplicate_text(&ea.texts[0])
        } else {
            Vec::new()
        };
        proof {
            if args@.len() == 0 {
                assert(pattern@ =~= Seq::<char>::empty());
            }
        }
        (
            Effects { out: Vec::new(), err },
            CommandStep::Waiting(Action::Glob { pattern }, Resume::Globbed),
        )
    } else if text::equals_str(n, "write") {
        match fixed_args(args, 2, ctx, environment) {
            Err(p) => p,
            Ok((ea, err)) => (
                Effects { out: Vec::new(), err },
                CommandStep::Waiting(
                    Action::WriteFile {
                        path: duplicate_text(&ea.texts[0]),
                        content: duplicate_text(&ea.texts[1]),
                    },
                    Resume::WroteWhole { path: duplicate_text(&ea.texts[0]) },
                ),
            ),
        }
    } else if text::equals_str(n, "read") {
        match fixed_args(args, 1, ctx, environment) {
            Err(p) => p,
            Ok((ea, err)) => (
                Effects { out: Vec::new(), err },
                CommandStep::Waiting(
                    Action::ReadFile { path: duplicate_text(&ea.texts[0]) },
                    Resume::ReadWhole { path: duplicate_text(&ea.texts[0]) },
                ),
            ),
        }
    } else if text::equals_str(n, "append") {
        match fixed_args(args, 2, ctx, environment) {
            Err(p) => p,
            Ok((ea, err)) => (
                Effects { out: Vec::new(), err },
                CommandStep::Waiting(
                    Action::ReadFile { path: duplicate_text(&ea.texts[0]) },
                    Resume::AppendRead {
                        path: duplicate_text(&ea.texts[0]),
                        suffix: duplicate_text(&ea.texts[1]),
                    },
                ),
            ),
        }
    } else if text::equals_str(n, "repeat") {
        match fixed_args(args, 2, ctx, environment) {
            Err(p) => p,
            Ok((ea, err)) => {
                match text::parse_count(&ea.texts[1]) {
                    None => (
                        Effects { out: Vec::new(), err },
                        CommandStep::Failed(Fatal::InvalidRepeatCount),
                    ),
                    Some(count) => {
                        let item = &ea.texts[0];
                        let too_large = item.len() > 0 && count > usize::MAX / item.len();
                        proof {
                            let l = item@.len() as int;
                            let c = count as int;
                            let m = usize::MAX as int;
                            if l > 0 {
                                vstd::arithmetic::div_mod::lemma_fundamental_div_mod(m, l);
                                vstd::arithmetic::div_mod::lemma_mod_bound(m, l);
                                if c > m / l {
                                    assert(c * l > m) by (nonlinear_arith)
                                        requires
                                            c >= m / l + 1,
                                            l > 0,
                                            m == l * (m / l) + m % l,
                                            m % l < l,
                                    ;
                                } else {
                                    assert(c * l <= m) by (nonlinear_arith)
                                        requires
                                            c <= m / l,
                                            l > 0,
                                            m == l * (m / l) + m % l,
                                            0 <= m % l,
                                    ;
                                }
                            }
                        }
                        if too_large {
                            (
                                Effects { out: Vec::new(), err },
                                CommandStep::Failed(Fatal::OutputTooLarge),
                            )
                        } else {
                            let output = builtins::repeat(item, count);
                            (
                                Effects { out: Vec::new(), err },
                                CommandStep::Done(
                                    CommandOutcome { output, exit_code: None },
                                ),
                            )
                        }
                    },
                }
            },
        }
    } else if text::equals_str(n, "replace") {
        match fixed_args(args, 3, ctx, environment) {
            Err(p) => p,
            Ok((ea, err)) => {
                let output = builtins::replace(&ea.texts[0], &ea.texts[1], &ea.texts[2]);
                (
                    Effects { out: Vec::new(), err },
                    CommandStep::Done(CommandOutcome { output, exit_code: None }),
                )
            },
        }
    } else if text::equals_str(n, "concatenate") {
        let ea = eval_args_tail(args, 0, ctx, environment);
        let mut err: Vec<char> = Vec::new();
        emit_diags(&mut err, &ea.diags);
        if !ea.ok {
            return (
                Effects { out: Vec::new(), err },
                CommandStep::Failed(Fatal::UnterminatedEscape),
            );
        }
        let sep: Vec<char> = vec!['\n'];
        proof {
            assert(sep@ =~= seq!['\n']);
        }
        let output = join_texts(&ea.texts, &sep, 0);
        proof {
            let tv = views_of(ea.texts@);
            assert(tv.subrange(0, tv.len() as int) =~= tv);
        }
        (
            Effects { out: Vec::new(), err },
            CommandStep::Done(CommandOutcome { output, exit_code: None }),
        )
    } else if text::equals_str(n, "concatenate_separator") {
        let ea = eval_args_tail(args, 0, ctx, environment);
        let mut err: Vec<char> = Vec::new();
        emit_diags(&mut err, &ea.diags);
        if !ea.ok {
            return (
                Effects { out: Vec::new(), err },
                CommandStep::Failed(Fatal::UnterminatedEscape),
            );
        }
        if args.len() < 1 {
            return (
                Effects { out: Vec::new(), err },
                CommandStep::Failed(Fatal::MissingArgument),
            );
        }
        proof {
            lemma_args_eval_len(a, 0, ce, ee);
        }
        let output = join_texts(&ea.texts, &ea.texts[0], 1);
        proof {
            let tv = views_of(ea.texts@);
            assert(tv.subrange(1, tv.len() as int) =~= tv.drop_first());
        }
        (
            Effects { out: Vec::new(), err },
            CommandStep::Done(CommandOutcome { output, exit_code: None }),
        )
    } else if text::equals_str(n, "before") || text::equals_str(n, "after") || text::equals_str(
        n,
        "rbefore",
    ) || text::equals_str(n, "rafter") {
        let last = text::equals_str(n, "rbefore") || text::equals_str(n, "rafter");
        let keep_before = text::equals_str(n, "before") || text::equals_str(n, "rbefore");
        match fixed_args(args, 2, ctx, environment) {
            Err(p) => p,
            Ok((ea, err)) => {
                let output = if last {
                    builtins::split_last_part(&ea.texts[0], &ea.texts[1], keep_before)
                } else {
                    builtins::split_first_part(&ea.texts[0], &ea.texts[1], keep_before)
                };
                (
                    Effects { out: Vec::new(), err },
                    CommandStep::Done(CommandOutcome { output, exit_code: None }),
                )
            },
        }
    } else if text::equals_str(n, "last_line") || text::equals_str(n, "first_line") {
        let first = text::equals_str(n, "first_line");
        match fixed_args(args, 1, ctx, environment) {
            Err(p) => p,
            Ok((ea, err)) => {
                let output = if first {
                    builtins::first_line(&ea.texts[0])
                } else {
                    builtins::last_line(&ea.texts[0])
                };
                (
                    Effects { out: Vec::new(), err },
                    CommandStep::Done(CommandOutcome { output, exit_code: None }),
                )
            },
        }
    } else if text::equals_str(n, "size") {
        match fixed_args(args, 1, ctx, environment) {
            Err(p) => p,
            Ok((ea, err)) => {
                let bytes = text::utf8_byte_len(&ea.texts[0]);
                let mut output: Vec<char> = Vec::new();
                text::push_u128_dec(&mut output, bytes);
                proof {
                    assert(output@ =~= text::dec_digits(text::utf8_len(ea.texts@[0]@)));
                }
                (
                    Effects { out: Vec::new(), err },
                    CommandStep::Done(CommandOutcome { output, exit_code: None }),
                )
            },
        }
    } else if text::equals_str(n, "lines") {
        match fixed_args(args, 1, ctx, environment) {
            Err(p) => p,
            Ok((ea, err)) => {
                let count = builtins::count_lines(&ea.texts[0]);
                let mut output: Vec<char> = Vec::new();
                text::push_u128_dec(&mut output, count as u128);
                proof {
                    assert(output@ =~= text::dec_digits(
                        text::spec_lines(ea.texts@[0]@).len() as int,
                    ));
                }
                (
                    Effects { out: Vec::new(), err },
                    CommandStep::Done(CommandOutcome { output, exit_code: None }),
                )
            },
        }
    } else if text::equals_str(n, "trim") {
        match fixed_args(args, 1, ctx, environment) {
            Err(p) => p,
            Ok((ea, err)) => {
                let output = text::trim(&ea.texts[0]);
                (
                    Effects { out: Vec::new(), err },
                    CommandStep::Done(CommandOutcome { output, exit_code: None }),
                )
            },
        }
    } else if text::equals_str(n, "if_equal") {
        if args.len() < 3 {
            return (
                Effects { out: Vec::new(), err: Vec::new() },
                CommandStep::Failed(Fatal::MissingArgument),
            );
        }
        let ea = eval_args_upto(args, 2, ctx, environment);
        let ghost rv = args_eval_from(take_upto(a, 2), 0, ce, ee);
        let mut err: Vec<char> = Vec::new();
        emit_diags(&mut err, &ea.diags);
        if !ea.ok {
            return (
                Effects { out: Vec::new(), err },
                CommandStep::Failed(Fatal::UnterminatedEscape),
            );
        }
        proof {
            lemma_args_eval_len(take_upto(a, 2), 0, ce, ee);
        }
        let equal = text::chars_eq(&ea.texts[0], &ea.texts[1]);
        if equal {
            let (c, cok) = interpolate::evaluate_argument(&args[2], ctx, environment);
            let ghost cv = spec_interpolate(a[2], ce, ee);
            emit_diags(&mut err, &c.diagnostics);
            proof {
                lemma_diag_lines_concat(rv.diags, cv.diags);
            }
            if !cok {
                (
                    Effects { out: Vec::new(), err },
                    CommandStep::Failed(Fatal::UnterminatedEscape),
                )
            } else {
                (
                    Effects { out: Vec::new(), err },
                    CommandStep::Done(CommandOutcome { output: c.text, exit_code: None }),
                )
            }
        } else if args.len() >= 4 {
            let (d, dok) = interpolate::evaluate_argument(&args[3], ctx, environment);
            let ghost dv2 = spec_interpolate(a[3], ce, ee);
            emit_diags(&mut err, &d.diagnostics);
            proof {
                lemma_diag_lines_concat(rv.diags, dv2.diags);
            }
            if !dok {
                (
                    Effects { out: Vec::new(), err },
                    CommandStep::Failed(Fatal::UnterminatedEscape),
                )
            } else {
                (
                    Effects { out: Vec::new(), err },
                    CommandStep::Done(CommandOutcome { output: d.text, exit_code: None }),
                )
            }
        } else {
            (
                Effects { out: Vec::new(), err },
                CommandStep::Done(CommandOutcome { output: Vec::new(), exit_code: None }),
            )
        }
    } else if text::equals_str(n, "cargo") || text::equals_str(n, "git") || text::equals_str(
        n,
        "gh",
    ) || text::equals_str(n, "hyperfine") || text::equals_str(n, "jq") || text::equals_str(n, "yq")
        || text::equals_str(n, "node") || text::equals_str(n, "deno") || text::equals_str(n, "bun")
        || text::equals_str(n, "sqlite3") || text::equals_str(n, "python") || text::equals_str(
        n,
        "npm",
    ) || text::equals_str(n, "bat") {
        let ea = eval_args_tail(args, 0, ctx, environment);
        let mut err: Vec<char> = Vec::new();
        emit_diags(&mut err, &ea.diags);
        if !ea.ok {
            return (
                Effects { out: Vec::new(), err },
                CommandStep::Failed(Fatal::UnterminatedEscape),
            );
        }
        let mut fargs: Vec<Vec<char>> = Vec::new();
        let ghost tv = views_of(ea.texts@);
        let mut i: usize = 0;
        proof {
            assert(views_of(fargs@) =~= nonempty_texts(tv.subrange(0, 0)));
        }
        while i < ea.texts.len()
            invariant
                i <= ea.texts@.len(),
                tv == views_of(ea.texts@),
                views_of(fargs@) == nonempty_texts(tv.subrange(0, i as int)),
            decreases ea.texts@.len() - i,
        {
            let ghost fprev = views_of(fargs@);
            if ea.texts[i].len() > 0 {
                fargs.push(duplicate_text(&ea.texts[i]));
            }
            i += 1;
            proof {
                let ghost pfx = tv.subrange(0, i as int);
                assert(pfx.drop_last() =~= tv.subrange(0, i - 1));
                assert(pfx.last() == ea.texts@[i - 1]@);
                if ea.texts@[i - 1]@.len() > 0 {
                    assert(views_of(fargs@) =~= fprev + seq![pfx.last()]);
                } else {
                    assert(views_of(fargs@) =~= fprev + Seq::<Seq<char>>::empty());
                }
            }
        }
        proof {
            assert(tv.subrange(0, tv.len() as int) =~= tv);
            assert(pair_views(Seq::<(Vec<char>, Vec<char>)>::empty()) =~= Seq::<(
                Seq<char>,
                Seq<char>,
            )>::empty());
        }
        (
            Effects { out: Vec::new(), err },
            CommandStep::Waiting(
                Action::Spawn {
                    program: duplicate_text(n),
                    arguments: fargs,
                    environment: Vec::new(),
                },
                Resume::Spawned,
            ),
        )
    } else if text::equals_str(n, "literal") || text::equals_str(n, "constant") {
        if args.len() == 0 {
            return (
                Effects { out: Vec::new(), err: Vec::new() },
                CommandStep::Failed(Fatal::MissingArgument),
            );
        }
        let (c, cok) = interpolate::evaluate_argument(&args[0], ctx, environment);
        let mut err: Vec<char> = Vec::new();
        emit_diags(&mut err, &c.diagnostics);
        if !cok {
            (Effects { out: Vec::new(), err }, CommandStep::Failed(Fatal::UnterminatedEscape))
        } else {
            (
                Effects { out: Vec::new(), err },
                CommandStep::Done(CommandOutcome { output: c.text, exit_code: None }),
            )
        }
    } else if text::equals_str(n, "noop") {
        (
            Effects { out: Vec::new(), err: Vec::new() },
            CommandStep::Done(CommandOutcome { output: Vec::new(), exit_code: None }),
        )
    } else {
        let mut err: Vec<char> = Vec::new();
        text::push_str(&mut err, "unknown command '");
        text::push_all(&mut err, n);
        err.push('\'');
        err.push('\n');
        proof {
            assert(err@ =~= "unknown command '"@ + command.name@ + seq!['\'', '\n']);
        }
        (
            Effects { out: Vec::new(), err },
            CommandStep::Done(CommandOutcome { output: Vec::new(), exit_code: Some(1) }),
        )
    }
}

/// Joins the texts from index `from` on: once something has been written,
/// each further text is preceded by the separator; empty texts themselves
/// contribute nothing.
#[verifier::loop_isolation(false)]
fn join_texts(texts: &Vec<Vec<char>>, sep: &Vec<char>, from: usize) -> (r: Vec<char>)
    requires
        from <= texts@.len(),
    ensures
        r@ == concat_join(views_of(texts@).subrange(from as int, texts@.len() as int), sep@),
{
    let ghost tv = views_of(texts@).subrange(from as int, texts@.len() as int);
    let mut out: Vec<char> = Vec::new();
    let mut i: usize = from;
    proof {
        assert(out@ =~= concat_join(tv.subrange(0, 0), sep@));
    }
    while i < texts.len()
        invariant
            from <= i <= texts@.len(),
            out@ == concat_join(tv.subrange(0, i - from), sep@),
        decreases texts@.len() - i,
    {
        if texts[i].len() > 0 {
            if out.len() > 0 {
                text::push_all(&mut out, sep);
            }
            text::push_all(&mut out, &texts[i]);
        }
        i += 1;
        proof {
            let ghost pfx = tv.subrange(0, i - from);
            assert(pfx.drop_last() =~= tv.subrange(0, i - 1 - from));
            assert(pfx.last() == texts@[i - 1]@);
            assert(out@ =~= concat_join(pfx, sep@));
        }
    }
    proof {
        assert(tv.subrange(0, tv.len() as int) =~= tv);
    }
    out
}

/// Resumes a paused command with the event its action produced.
pub fn resume_command(resume: Resume, event: Event) -> (r: (Effects, CommandStep))
    requires
        event_fits(resume@, event@),
    ensures
        ({
            let b = spec_resume(resume@, event@);
            r.0@.out == b.out && r.0@.err == b.err && r.1@ == b.step
        }),
{
    match resume {
        Resume::Spawned => {
            match event {
                Event::Finished { output, exit_code } => (
                    Effects { out: Vec::new(), err: Vec::new() },
                    CommandStep::Done(CommandOutcome { output, exit_code }),
                ),
                _ => (
                    Effects { out: Vec::new(), err: Vec::new() },
                    CommandStep::Done(CommandOutcome { output: Vec::new(), exit_code: None }),
                ),
            }
        },
        Resume::Globbed => {
            match event {
                Event::Matches { result } => match result {
                    Ok(paths) => {
                        let mut out: Vec<char> = Vec::new();
                        let back: Vec<char> = vec!['\\'];
                        let fwd: Vec<char> = vec!['/'];
                        proof {
                            assert(back@ =~= seq!['\\']);
                            assert(fwd@ =~= seq!['/']);
                        }
                        let mut i: usize = 0;
                        proof {
                            assert(out@ =~= glob_join(views_of(paths@).subrange(0, 0)));
                        }
                        while i < paths.len()
                            invariant
                                i <= paths@.len(),
                                back@ == seq!['\\'],
                                fwd@ == seq!['/'],
                                out@ == glob_join(views_of(paths@).subrange(0, i as int)),
                            decreases paths@.len() - i,
                        {
                            let item = builtins::replace(&paths[i], &back, &fwd);
                            if out.len() > 0 {
                                out.push('\n');
                            }
                            text::push_all(&mut out, &item);
                            i += 1;
                            proof {
                                let ghost pfx = views_of(paths@).subrange(0, i as int);
                                assert(pfx.drop_last() =~= views_of(paths@).subrange(0, i - 1));
                                assert(pfx.last() == paths@[i - 1]@);
                                assert(out@ =~= glob_join(pfx));
                            }
                        }
                        proof {
                            assert(views_of(paths@).subrange(0, paths@.len() as int) =~= views_of(
                                paths@,
                            ));
                        }
                        (
                            Effects { out: Vec::new(), err: Vec::new() },
                            CommandStep::Done(
                                CommandOutcome { output: out, exit_code: Some(0) },
                            ),
                        )
                    },
                    Err(m) => {
                        let mut err: Vec<char> = Vec::new();
                        text::push_str(&mut err, "Error reading files glob ");
                        text::push_all(&mut err, &m);
                        err.push('\n');
                        (
                            Effects { out: Vec::new(), err },
                            CommandStep::Done(
                                CommandOutcome { output: Vec::new(), exit_code: Some(1) },
                            ),
                        )
                    },
                },
                _ => (
                    Effects { out: Vec::new(), err: Vec::new() },
                    CommandStep::Done(CommandOutcome { output: Vec::new(), exit_code: None }),
                ),
            }
        },
        Resume::ReadWhole { path } => {
            match event {
                Event::FileContent { content } => match content {
                    Some(c) => (
                        Effects { out: Vec::new(), err: Vec::new() },
                        CommandStep::Done(CommandOutcome { output: c, exit_code: Some(0) }),
                    ),
                    None => {
                        let mut err: Vec<char> = Vec::new();
                        text::push_str(&mut err, "Could not read ");
                        text::push_all(&mut err, &path);
                        err.push('\n');
                        (
                            Effects { out: Vec::new(), err },
                            CommandStep::Done(
                                CommandOutcome { output: Vec::new(), exit_code: Some(1) },
                            ),
                        )
                    },
                },
                _ => (
                    Effects { out: Vec::new(), err: Vec::new() },
                    CommandStep::Done(CommandOutcome { output: Vec::new(), exit_code: None }),
                ),
            }
        },
        Resume::WroteWhole { path } => {
            match event {
                Event::Written { ok } => {
                    if ok {
                        (
                            Effects { out: Vec::new(), err: Vec::new() },
                            CommandStep::Done(
                                CommandOutcome { output: Vec::new(), exit_code: Some(0) },
                            ),
                        )
                    } else {
                        let mut err: Vec<char> = Vec::new();
                        text::push_str(&mut err, "Could not write to ");
                        text::push_all(&mut err, &path);
                        err.push('\n');
                        (
                            Effects { out: Vec::new(), err },
                            CommandStep::Done(
                                CommandOutcome { output: Vec::new(), exit_code: Some(1) },
                            ),
                        )
                    }
                },
                _ => (
                    Effects { out: Vec::new(), err: Vec::new() },
                    CommandStep::Done(CommandOutcome { output: Vec::new(), exit_code: None }),
                ),
            }
        },
        Resume::RemovedPath => {
            match event {
                Event::Removed { ok } => {
                    if ok {
                        (
                            Effects { out: Vec::new(), err: Vec::new() },
                            CommandStep::Done(
                                CommandOutcome { output: Vec::new(), exit_code: Some(0) },
                            ),
                        )
                    } else {
                        let mut err: Vec<char> = Vec::new();
                        text::push_str(&mut err, "unknown path item to remove\n");
                        (
                            Effects { out: Vec::new(), err },
                            CommandStep::Done(
                                CommandOutcome { output: Vec::new(), exit_code: Some(1) },
                            ),
                        )
                    }
                },
                _ => (
                    Effects { out: Vec::new(), err: Vec::new() },
                    CommandStep::Done(CommandOutcome { output: Vec::new(), exit_code: None }),
                ),
            }
        },
        Resume::Transferring { moving } => {
            match event {
                Event::Transferred { outcome } => match outcome {
                    TransferOutcome::Done => (
                        Effects { out: Vec::new(), err: Vec::new() },
                        CommandStep::Done(
                            CommandOutcome { output: Vec::new(), exit_code: Some(0) },
                        ),
                    ),
                    TransferOutcome::Directory => (
                        Effects { out: Vec::new(), err: Vec::new() },
                        CommandStep::Failed(Fatal::DirectoryUnsupported),
                    ),
                    TransferOutcome::Failed(m) => {
                        let mut err: Vec<char> = Vec::new();
                        if moving {
                            text::push_str(&mut err, "error moving file: ");
                        } else {
                            text::push_str(&mut err, "error copying file: ");
                        }
                        text::push_all(&mut err, &m);
                        err.push('\n');
                        (
                            Effects { out: Vec::new(), err },
                            CommandStep::Done(
                                CommandOutcome { output: Vec::new(), exit_code: Some(0) },
                            ),
                        )
                    },
                },
                _ => (
                    Effects { out: Vec::new(), err: Vec::new() },
                    CommandStep::Done(CommandOutcome { output: Vec::new(), exit_code: None }),
                ),
            }
        },
        Resume::AppendRead { path, suffix } => {
            match event {
                Event::FileContent { content } => match content {
                    Some(c) => {
                        let mut combined = c;
                        text::push_all(&mut combined, &suffix);
                        let path2 = duplicate_text(&path);
                        (
                            Effects { out: Vec::new(), err: Vec::new() },
                            CommandStep::Waiting(
                                Action::WriteFile { path, content: combined },
                                Resume::AppendWrote { path: path2 },
                            ),
                        )
                    },
                    None => {
                        let mut err: Vec<char> = Vec::new();
                        text::push_str(&mut err, "Could not read ");
                        text::push_all(&mut err, &path);
                        err.push('\n');
                        (
                            Effects { out: Vec::new(), err },
                            CommandStep::Done(
                                CommandOutcome { output: Vec::new(), exit_code: Some(1) },
                            ),
                        )
                    },
                },
                _ => (
                    Effects { out: Vec::new(), err: Vec::new() },
                    CommandStep::Done(CommandOutcome { output: Vec::new(), exit_code: None }),
                ),
            }
        },
        Resume::AppendWrote { path } => {
            match event {
                Event::Written { ok } => {
                    if ok {
                        (
                            Effects { out: Vec::new(), err: Vec::new() },
                            CommandStep::Done(
                                CommandOutcome { output: Vec::new(), exit_code: Some(0) },
                            ),
                        )
                    } else {
                        let mut err: Vec<char> = Vec::new();
                        text::push_str(&mut err, "Could not write to ");
                        text::push_all(&mut err, &path);
                        err.push('\n');
                        (
                            Effects { out: Vec::new(), err },
                            CommandStep::Done(
                                CommandOutcome { output: Vec::new(), exit_code: Some(1) },
                            ),
                        )
                    }
                },
                _ => (
                    Effects { out: Vec::new(), err: Vec::new() },
                    CommandStep::Done(CommandOutcome { output: Vec::new(), exit_code: None }),
                ),
            }
        },
    }
}

} // verus!
