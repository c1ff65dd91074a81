//! The interpreter's decisions. An expression is turned into a plan: the
//! steps that run it in order, each one naming the pipes, files and processes
//! of earlier steps by their index. Carrying the steps out is input and
//! output, left to the caller.
use vstd::prelude::*;

use crate::buildin::{builtin_of, outcome_fits, BuildInCommand, BuildInModel, BuildInOutcome};
use crate::parser::{Call, CallModel, ExprModel, LeftRecursiveBlock, ShellExpr};
use crate::subprocess::{BuildInProcess, ExitCode};

verus! {

#[derive(Debug, Clone, Copy, PartialEq, Eq, Structural)]
pub enum InterperterError {
    FailedToSpawn,
    CouldNotWriteToFile,
    CommandWasNotRun,
    FailedToWait,
    CouldNotPipe,
    CouldNotCopyPipe,
    CouldNotBuffer,
    CouldNotWrite,
}

/// How a command line ended.
#[derive(Debug, Clone, Copy, PartialEq, Eq, Structural)]
pub enum InterpreterResult {
    ExitSuccess,
    ExitFailure(u32),
    ExitCrash(i32),
}

/// Exit code 0 is success, a negative code a crash, a positive one a failure.
pub open spec fn result_of_code(code: i32) -> InterpreterResult {
    if code == 0 {
        InterpreterResult::ExitSuccess
    } else if code < 0 {
        InterpreterResult::ExitCrash(code)
    } else {
        InterpreterResult::ExitFailure(code as u32)
    }
}

/// Exit code 0 and only 0 is success; a negative code is a crash with that
/// code; a positive code is a failure with that code.
pub proof fn law_exit_code_classes(code: i32)
    ensures
        (result_of_code(code) == InterpreterResult::ExitSuccess) <==> code == 0,
        (result_of_code(code) is ExitCrash) <==> code < 0,
        result_of_code(code) matches InterpreterResult::ExitCrash(c) ==> c == code,
        (result_of_code(code) is ExitFailure) <==> code > 0,
        result_of_code(code) matches InterpreterResult::ExitFailure(c) ==> c == code,
{
}

impl InterpreterResult {
    pub fn from_exit_code(exit_code: ExitCode) -> (r: Self)
        ensures
            r == result_of_code(exit_code.0),
    {
        let code = exit_code.code();
        if code == 0 {
            return InterpreterResult::ExitSuccess;
        }
        if code < 0 {
            return InterpreterResult::ExitCrash(code);
        }
        InterpreterResult::ExitFailure(code as u32)
    }
}

/// Where a process reads from: the shell's standard input, or the reading
/// end of the pipe that the step with this index opened.
#[derive(Debug, Clone, Copy, PartialEq, Eq, Structural)]
pub enum Source {
    Stdin,
    PipeReader(usize),
}

/// Where a process writes to: the shell's standard output, the writing end
/// of the pipe that the step with this index opened, or the file that it
/// created.
#[derive(Debug, Clone, Copy, PartialEq, Eq, Structural)]
pub enum Sink {
    Stdout,
    PipeWriter(usize),
    File(usize),
}

/// One step of a plan.
#[derive(Debug)]
pub enum Step {
    /// Open a pipe.
    OpenPipe,
    /// Create (or truncate) the file with this name, for writing.
    CreateFile(String),
    /// Run a built-in command; it does not read its source, which is
    /// closed, and what it prints goes to the sink.
    RunBuildIn(BuildInCommand, Source, Sink),
    /// Start an external program.
    Spawn(Call, Source, Sink),
    /// Wait for the process that the step with this index started.
    Wait(usize),
    /// Write this text to the sink.
    Write(String, Sink),
}

/// A step as plain values.
pub enum StepModel {
    OpenPipe,
    CreateFile(Seq<char>),
    RunBuildIn(BuildInModel, Source, Sink),
    Spawn(CallModel, Source, Sink),
    Wait(usize),
    Write(Seq<char>, Sink),
}

/// What the exit code of a plan is read from: the process that the step with
/// this index started, or a result that is already known.
#[derive(Debug)]
pub enum Outcome {
    Process(usize),
    Finished(BuildInProcess),
}

/// An outcome as plain values; a known result by what it printed and its code.
pub enum OutcomeModel {
    Process(usize),
    Finished(Option<Seq<char>>, i32),
}

/// The steps that run an expression, and where its exit code comes from.
#[derive(Debug)]
pub struct Plan {
    pub steps: Vec<Step>,
    pub result: Outcome,
}

impl View for Step {
    type V = StepModel;

    open spec fn view(&self) -> StepModel {
        match self {
            Step::OpenPipe => StepModel::OpenPipe,
            Step::CreateFile(n) => StepModel::CreateFile(n@),
            Step::RunBuildIn(b, s, k) => StepModel::RunBuildIn(b@, *s, *k),
            Step::Spawn(c, s, k) => StepModel::Spawn(c@, *s, *k),
            Step::Wait(i) => StepModel::Wait(*i),
            Step::Write(t, k) => StepModel::Write(t@, *k),
        }
    }
}

impl View for Outcome {
    type V = OutcomeModel;

    open spec fn view(&self) -> OutcomeModel {
        match self {
            Outcome::Process(i) => OutcomeModel::Process(*i),
            Outcome::Finished(p) => OutcomeModel::Finished(
                match p.stdout {
                    Some(s) => Some(s@),
                    None => None,
                },
                p.status.0,
            ),
        }
    }
}

pub open spec fn steps_view(s: Seq<Step>) -> Seq<StepModel> {
    s.map_values(|x: Step| x@)
}

/// The step that runs a call: the built-in command it names, or the program.
pub open spec fn call_step(c: CallModel, src: Source, sink: Sink) -> StepModel {
    match builtin_of(c) {
        Some(b) => StepModel::RunBuildIn(b, src, sink),
        None => StepModel::Spawn(c, src, sink),
    }
}

/// Waiting for an outcome: for a process, a step; a known result needs none.
pub open spec fn wait_for(o: OutcomeModel) -> Seq<StepModel> {
    match o {
        OutcomeModel::Process(k) => seq![StepModel::Wait(k)],
        OutcomeModel::Finished(..) => seq![],
    }
}

/// The plan of an expression that reads from `src` and writes to `sink`,
/// when `base` steps precede it.
/// - A call is one step, whose process is the outcome.
/// - A pipe opens a pipe; the left side writes into it; the call on the right
///   reads from it; the left side is waited for; the right call's process is
///   the outcome.
/// - A redirect creates the file named by the program of the call on its
///   right; the left side writes into it and is waited for; the file's name is
///   written to the sink, and the outcome is a result that printed that name,
///   with code 0.
pub open spec fn plan_of(e: ExprModel, src: Source, sink: Sink, base: nat) -> (Seq<StepModel>, OutcomeModel)
    decreases e,
{
    match e {
        ExprModel::Call(c) => (seq![call_step(c, src, sink)], OutcomeModel::Process(base as usize)),
        ExprModel::Pipe(left, c) => {
            let (ls, lo) = plan_of(*left, src, Sink::PipeWriter(base as usize), base + 1);
            let r = base + 1 + ls.len();
            (
                seq![StepModel::OpenPipe] + ls + seq![call_step(c, Source::PipeReader(base as usize), sink)]
                    + wait_for(lo),
                OutcomeModel::Process(r as usize),
            )
        },
        ExprModel::Redirect(left, c) => {
            let (ls, lo) = plan_of(*left, src, Sink::File(base as usize), base + 1);
            (
                seq![StepModel::CreateFile(c.prog)] + ls + wait_for(lo) + seq![StepModel::Write(c.prog, sink)],
                OutcomeModel::Finished(Some(c.prog), 0),
            )
        },
    }
}

/// The plan of a whole command line: it reads the shell's standard input
/// and writes to its standard output.
pub fn interpret_shell(shell_expr: ShellExpr) -> (r: Plan)
    ensures
        steps_view(r.steps@) == plan_of(shell_expr.model(), Source::Stdin, Sink::Stdout, 0).0,
        r.result@ == plan_of(shell_expr.model(), Source::Stdin, Sink::Stdout, 0).1,
{
    let mut steps: Vec<Step> = Vec::new();
    let result = interpret_shell_expr(shell_expr, Source::Stdin, Sink::Stdout, &mut steps);
    assert(steps_view(steps@) =~= seq![] + plan_of(shell_expr.model(), Source::Stdin, Sink::Stdout, 0).0);
    Plan { steps, result }
}

/// Appends the plan of `shell_expr` to `steps`.
fn interpret_shell_expr(shell_expr: ShellExpr, stdin: Source, stdout: Sink, steps: &mut Vec<Step>) -> (r: Outcome)
    ensures
        steps_view(final(steps)@) == steps_view(old(steps)@) + plan_of(
            shell_expr.model(),
            stdin,
            stdout,
            old(steps)@.len(),
        ).0,
        r@ == plan_of(shell_expr.model(), stdin, stdout, old(steps)@.len()).1,
    decreases shell_expr,
{
    match shell_expr {
        ShellExpr::Call(call) => interpret_call(call, stdin, stdout, steps),
        ShellExpr::Pipe(pipe) => interpret_pipe(pipe.0, stdin, stdout, steps),
        ShellExpr::Redirect(redirect) => interpret_redirect(redirect.0, stdin, stdout, steps),
    }
}

/// Appends the step that runs `call`.
fn interpret_call(call: Call, stdin: Source, stdout: Sink, steps: &mut Vec<Step>) -> (r: Outcome)
    ensures
        steps_view(final(steps)@) == steps_view(old(steps)@).push(call_step(call@, stdin, stdout)),
        r@ == OutcomeModel::Process(old(steps)@.len() as usize),
{
    let k = steps.len();
    let step = match BuildInCommand::build_from_call(&call) {
        Some(buildin) => Step::RunBuildIn(buildin, stdin, stdout),
        None => Step::Spawn(call, stdin, stdout),
    };
    let ghost before = steps@;
    steps.push(step);
    assert(steps_view(steps@) =~= steps_view(before).push(call_step(call@, stdin, stdout)));
    Outcome::Process(k)
}

/// Appends a wait for `outcome` when it is a process.
fn wait_for_outcome(outcome: &Outcome, steps: &mut Vec<Step>)
    ensures
        steps_view(final(steps)@) == steps_view(old(steps)@) + wait_for(outcome@),
{
    let ghost before = steps@;
    match outcome {
        Outcome::Process(k) => {
            steps.push(Step::Wait(*k));
            assert(steps_view(steps@) =~= steps_view(before) + wait_for(outcome@));
        },
        Outcome::Finished(_) => {
            assert(steps_view(steps@) =~= steps_view(before) + wait_for(outcome@));
        },
    }
}

fn interpret_pipe(block: LeftRecursiveBlock, stdin: Source, stdout: Sink, steps: &mut Vec<Step>) -> (r: Outcome)
    ensures
        steps_view(final(steps)@) == steps_view(old(steps)@) + plan_of(
            ExprModel::Pipe(Box::new(block.left.model()), block.right@),
            stdin,
            stdout,
            old(steps)@.len(),
        ).0,
        r@ == plan_of(
            ExprModel::Pipe(Box::new(block.left.model()), block.right@),
            stdin,
            stdout,
            old(steps)@.len(),
        ).1,
    decreases block,
{
    let ghost s0 = steps_view(steps@);
    let base = steps.len();
    steps.push(Step::OpenPipe);
    assert(steps_view(steps@) =~= s0.push(StepModel::OpenPipe));
    let ghost s1 = steps_view(steps@);
    let LeftRecursiveBlock { right, left } = block;
    let left_outcome = interpret_shell_expr(*left, stdin, Sink::PipeWriter(base), steps);
    let ghost s2 = steps_view(steps@);
    let right_outcome = interpret_call(right, Source::PipeReader(base), stdout, steps);
    wait_for_outcome(&left_outcome, steps);
    proof {
        let (ls, lo) = plan_of(left.model(), stdin, Sink::PipeWriter(base), (base + 1) as nat);
        assert(s2 == s1 + ls);
        assert(steps_view(steps@) =~= s0 + (seq![StepModel::OpenPipe] + ls + seq![
            call_step(right@, Source::PipeReader(base), stdout),
        ] + wait_for(lo)));
    }
    right_outcome
}

fn interpret_redirect(block: LeftRecursiveBlock, stdin: Source, stdout: Sink, steps: &mut Vec<Step>) -> (r: Outcome)
    ensures
        steps_view(final(steps)@) == steps_view(old(steps)@) + plan_of(
            ExprModel::Redirect(Box::new(block.left.model()), block.right@),
            stdin,
            stdout,
            old(steps)@.len(),
        ).0,
        r@ == plan_of(
            ExprModel::Redirect(Box::new(block.left.model()), block.right@),
            stdin,
            stdout,
            old(steps)@.len(),
        ).1,
    decreases block,
{
    let ghost s0 = steps_view(steps@);
    let base = steps.len();
    let LeftRecursiveBlock { right, left } = block;
    let file_name = right.prog;
    steps.push(Step::CreateFile(file_name.clone()));
    assert(steps_view(steps@) =~= s0.push(StepModel::CreateFile(file_name@)));
    let left_outcome = interpret_shell_expr(*left, stdin, Sink::File(base), steps);
    wait_for_outcome(&left_outcome, steps);
    let ghost s3 = steps_view(steps@);
    steps.push(Step::Write(file_name.clone(), stdout));
    proof {
        let (ls, lo) = plan_of(left.model(), stdin, Sink::File(base), (base + 1) as nat);
        assert(steps_view(steps@) =~= s3.push(StepModel::Write(file_name@, stdout)));
        assert(steps_view(steps@) =~= s0 + (seq![StepModel::CreateFile(file_name@)] + ls + wait_for(lo)
            + seq![StepModel::Write(file_name@, stdout)]));
    }
    Outcome::Finished(BuildInProcess { stdout: Some(file_name), status: ExitCode(0) })
}

/// The step reads from `src`.
pub open spec fn reads(st: StepModel, src: Source) -> bool {
    match st {
        StepModel::RunBuildIn(_, s, _) => s == src,
        StepModel::Spawn(_, s, _) => s == src,
        _ => false,
    }
}

/// The step writes to `sink`.
pub open spec fn writes(st: StepModel, sink: Sink) -> bool {
    match st {
        StepModel::RunBuildIn(_, _, k) => k == sink,
        StepModel::Spawn(_, _, k) => k == sink,
        StepModel::Write(_, k) => k == sink,
        _ => false,
    }
}

/// How many steps read from `src`.
pub open spec fn count_reads(ss: Seq<StepModel>, src: Source) -> nat
    decreases ss.len(),
{
    if ss.len() == 0 {
        0
    } else {
        count_reads(ss.drop_last(), src) + if reads(ss.last(), src) {
            1nat
        } else {
            0nat
        }
    }
}

/// How many steps write to `sink`.
pub open spec fn count_writes(ss: Seq<StepModel>, sink: Sink) -> nat
    decreases ss.len(),
{
    if ss.len() == 0 {
        0
    } else {
        count_writes(ss.drop_last(), sink) + if writes(ss.last(), sink) {
            1nat
        } else {
            0nat
        }
    }
}

/// The step starts a process.
pub open spec fn is_run(st: StepModel) -> bool {
    st is RunBuildIn || st is Spawn
}

/// `src` is `outer`, or the reading end of a pipe that one of the first `i`
/// steps opens; the steps stand at `base` onwards.
pub open spec fn source_in(x: Source, ss: Seq<StepModel>, base: int, i: int, outer: Source) -> bool {
    x == outer || (x matches Source::PipeReader(p) && base <= p < base + i && ss[p - base] is OpenPipe)
}

/// `sink` is `outer`, or the writing end of a pipe or a file that one of the
/// first `i` steps opens or creates; the steps stand at `base` onwards.
pub open spec fn sink_in(y: Sink, ss: Seq<StepModel>, base: int, i: int, outer: Sink) -> bool {
    y == outer || match y {
        Sink::Stdout => false,
        Sink::PipeWriter(p) => base <= p < base + i && ss[p - base] is OpenPipe,
        Sink::File(p) => base <= p < base + i && ss[p - base] is CreateFile,
    }
}

/// Step `i` refers only to the outer source and sink and to what earlier
/// steps opened, created or started.
pub open spec fn step_scoped(ss: Seq<StepModel>, base: int, i: int, src: Source, sink: Sink) -> bool {
    match ss[i] {
        StepModel::RunBuildIn(_, s, k) => source_in(s, ss, base, i, src) && sink_in(k, ss, base, i, sink),
        StepModel::Spawn(_, s, k) => source_in(s, ss, base, i, src) && sink_in(k, ss, base, i, sink),
        StepModel::Wait(k) => base <= k < base + i && is_run(ss[k - base]),
        StepModel::Write(_, k) => sink_in(k, ss, base, i, sink),
        _ => true,
    }
}

pub open spec fn source_before(x: Source, base: int) -> bool {
    x matches Source::PipeReader(p) ==> p < base
}

pub open spec fn sink_before(y: Sink, base: int) -> bool {
    match y {
        Sink::Stdout => true,
        Sink::PipeWriter(p) => p < base,
        Sink::File(p) => p < base,
    }
}

pub open spec fn source_within(x: Source, base: int, n: int) -> bool {
    x matches Source::PipeReader(p) && base <= p < base + n
}

pub open spec fn sink_within(y: Sink, base: int, n: int) -> bool {
    match y {
        Sink::Stdout => false,
        Sink::PipeWriter(p) => base <= p < base + n,
        Sink::File(p) => base <= p < base + n,
    }
}

proof fn lemma_count_concat(a: Seq<StepModel>, b: Seq<StepModel>)
    ensures
        forall|x: Source| #[trigger] count_reads(a + b, x) == count_reads(a, x) + count_reads(b, x),
        forall|y: Sink| #[trigger] count_writes(a + b, y) == count_writes(a, y) + count_writes(b, y),
    decreases b.len(),
{
    if b.len() == 0 {
        assert(a + b == a);
        assert forall|x: Source| #[trigger] count_reads(a + b, x) == count_reads(a, x) + count_reads(b, x) by {
            assert(count_reads(b, x) == 0);
        }
        assert forall|y: Sink| #[trigger] count_writes(a + b, y) == count_writes(a, y) + count_writes(b, y) by {
            assert(count_writes(b, y) == 0);
        }
    } else {
        lemma_count_concat(a, b.drop_last());
        assert((a + b).drop_last() == a + b.drop_last());
        assert((a + b).last() == b.last());
        assert forall|x: Source| #[trigger] count_reads(a + b, x) == count_reads(a, x) + count_reads(b, x) by {
            assert(count_reads(a + b.drop_last(), x) == count_reads(a, x) + count_reads(b.drop_last(), x));
        }
        assert forall|y: Sink| #[trigger] count_writes(a + b, y) == count_writes(a, y) + count_writes(b, y) by {
            assert(count_writes(a + b.drop_last(), y) == count_writes(a, y) + count_writes(b.drop_last(), y));
        }
    }
}

proof fn lemma_count_one(st: StepModel)
    ensures
        forall|x: Source| #[trigger] count_reads(seq![st], x) == if reads(st, x) { 1nat } else { 0nat },
        forall|y: Sink| #[trigger] count_writes(seq![st], y) == if writes(st, y) { 1nat } else { 0nat },
{
    assert(seq![st].drop_last() == Seq::<StepModel>::empty());
    assert forall|x: Source| #[trigger] count_reads(seq![st], x) == if reads(st, x) { 1nat } else { 0nat } by {
        assert(count_reads(Seq::<StepModel>::empty(), x) == 0);
    }
    assert forall|y: Sink| #[trigger] count_writes(seq![st], y) == if writes(st, y) { 1nat } else { 0nat } by {
        assert(count_writes(Seq::<StepModel>::empty(), y) == 0);
    }
}

proof fn lemma_count_waits(o: OutcomeModel)
    ensures
        forall|x: Source| #[trigger] count_reads(wait_for(o), x) == 0,
        forall|y: Sink| #[trigger] count_writes(wait_for(o), y) == 0,
{
    if o is Process {
        lemma_count_one(wait_for(o)[0]);
        assert(wait_for(o) == seq![wait_for(o)[0]]);
    }
}

/// What every part of a plan keeps: the steps at `base` onwards use the outer
/// source and sink once each, every pipe they open once at each end, every
/// file they create once, and nothing else from outside; each step refers
/// only to what earlier steps made; the outcome is a process that one of them
/// started.
pub open spec fn plan_shape(e: ExprModel, src: Source, sink: Sink, base: nat) -> bool {
    let (ss, o) = plan_of(e, src, sink, base);
    &&& ss.len() > 0
    &&& count_reads(ss, src) == 1
    &&& count_writes(ss, sink) == 1
    &&& forall|x: Source|
        x != src && !source_within(x, base as int, ss.len() as int) ==> #[trigger] count_reads(ss, x) == 0
    &&& forall|y: Sink|
        y != sink && !sink_within(y, base as int, ss.len() as int) ==> #[trigger] count_writes(ss, y) == 0
    &&& forall|p: int|
        base <= p < base + ss.len() && #[trigger] ss[p - base] is OpenPipe ==> count_reads(
            ss,
            Source::PipeReader(p as usize),
        ) == 1 && count_writes(ss, Sink::PipeWriter(p as usize)) == 1
    &&& forall|p: int|
        base <= p < base + ss.len() && #[trigger] ss[p - base] is CreateFile ==> count_writes(
            ss,
            Sink::File(p as usize),
        ) == 1
    &&& forall|i: int| 0 <= i < ss.len() ==> #[trigger] step_scoped(ss, base as int, i, src, sink)
    &&& o matches OutcomeModel::Process(k) ==> base <= k < base + ss.len() && is_run(ss[k - base])
}

proof fn lemma_shape_call(c: CallModel, src: Source, sink: Sink, base: nat)
    requires
        source_before(src, base as int),
        sink_before(sink, base as int),
        base + 1 <= usize::MAX,
    ensures
        plan_shape(ExprModel::Call(c), src, sink, base),
{
    let st = call_step(c, src, sink);
    let (ss, o) = plan_of(ExprModel::Call(c), src, sink, base);
    assert(ss == seq![st]);
    lemma_count_one(st);
    assert(step_scoped(ss, base as int, 0, src, sink));
}

#[verifier::spinoff_prover]
#[verifier::rlimit(30)]
proof fn lemma_shape_pipe(left: ExprModel, c: CallModel, src: Source, sink: Sink, base: nat)
    requires
        source_before(src, base as int),
        sink_before(sink, base as int),
        base + plan_of(ExprModel::Pipe(Box::new(left), c), src, sink, base).0.len() <= usize::MAX,
        plan_shape(left, src, Sink::PipeWriter(base as usize), base + 1),
    ensures
        plan_shape(ExprModel::Pipe(Box::new(left), c), src, sink, base),
{
    let e = ExprModel::Pipe(Box::new(left), c);
    let pw = Sink::PipeWriter(base as usize);
    let pr = Source::PipeReader(base as usize);
    let (ls, lo) = plan_of(left, src, pw, base + 1);
    let r = call_step(c, pr, sink);
    let w = wait_for(lo);
    let a = seq![StepModel::OpenPipe];
    let (ss, o) = plan_of(e, src, sink, base);
    assert(ss == a + ls + seq![r] + w);
    let n = ss.len() as int;
    let m = ls.len() as int;
    assert(n == m + 2 + w.len());
    lemma_count_one(StepModel::OpenPipe);
    lemma_count_one(r);
    lemma_count_waits(lo);
    lemma_count_concat(a, ls);
    lemma_count_concat(a + ls, seq![r]);
    lemma_count_concat(a + ls + seq![r], w);
    assert forall|i: int| 0 <= i < m implies ss[i + 1] == #[trigger] ls[i] by {}
    assert(ss[m + 1] == r);
    // the reads and writes of each endpoint
    assert(count_reads(ss, src) == 1);
    assert(count_writes(ss, sink) == 1);
    assert forall|x: Source|
        x != src && !source_within(x, base as int, n) implies #[trigger] count_reads(ss, x) == 0 by {
        assert(count_reads(ls, x) == 0);
    }
    assert forall|y: Sink|
        y != sink && !sink_within(y, base as int, n) implies #[trigger] count_writes(ss, y) == 0 by {
        assert(count_writes(ls, y) == 0);
    }
    assert forall|p: int|
        base <= p < base + n && #[trigger] ss[p - base] is OpenPipe implies count_reads(
            ss,
            Source::PipeReader(p as usize),
        ) == 1 && count_writes(ss, Sink::PipeWriter(p as usize)) == 1 by {
        if p == base {
            assert(count_reads(ls, pr) == 0);
        } else {
            assert(ss[p - base] == ls[p - base - 1]);
            assert(ls[p - (base + 1)] is OpenPipe);
        }
    }
    assert forall|p: int|
        base <= p < base + n && #[trigger] ss[p - base] is CreateFile implies count_writes(
            ss,
            Sink::File(p as usize),
        ) == 1 by {
        assert(p != base);
        assert(ss[p - base] == ls[p - base - 1]);
        assert(ls[p - (base + 1)] is CreateFile);
    }
    assert forall|i: int| 0 <= i < n implies #[trigger] step_scoped(ss, base as int, i, src, sink) by {
        if 1 <= i <= m {
            assert(ss[i] == ls[i - 1]);
            assert(step_scoped(ls, (base + 1) as int, i - 1, src, pw));
            assert forall|q: int| base + 1 <= q < base + i implies ss[q - base] == #[trigger] ls[q - (base + 1)] by {}
        } else if i == m + 1 {
        } else if i > m + 1 {
            assert(ss[i] == w[0]);
            assert(ss[lo->Process_0 - base] == ls[lo->Process_0 - (base + 1)]);
        }
    }
}

#[verifier::spinoff_prover]
#[verifier::rlimit(30)]
proof fn lemma_shape_redirect(left: ExprModel, c: CallModel, src: Source, sink: Sink, base: nat)
    requires
        source_before(src, base as int),
        sink_before(sink, base as int),
        base + plan_of(ExprModel::Redirect(Box::new(left), c), src, sink, base).0.len() <= usize::MAX,
        plan_shape(left, src, Sink::File(base as usize), base + 1),
    ensures
        plan_shape(ExprModel::Redirect(Box::new(left), c), src, sink, base),
{
    let e = ExprModel::Redirect(Box::new(left), c);
    let fw = Sink::File(base as usize);
    let (ls, lo) = plan_of(left, src, fw, base + 1);
    let w = wait_for(lo);
    let a = seq![StepModel::CreateFile(c.prog)];
    let z = StepModel::Write(c.prog, sink);
    let (ss, o) = plan_of(e, src, sink, base);
    assert(ss == a + ls + w + seq![z]);
    let n = ss.len() as int;
    let m = ls.len() as int;
    assert(n == m + 2 + w.len());
    lemma_count_one(a[0]);
    assert(a == seq![a[0]]);
    lemma_count_one(z);
    lemma_count_waits(lo);
    lemma_count_concat(a, ls);
    lemma_count_concat(a + ls, w);
    lemma_count_concat(a + ls + w, seq![z]);
    assert forall|i: int| 0 <= i < m implies ss[i + 1] == #[trigger] ls[i] by {}
    assert(ss[n - 1] == z);
    assert(count_reads(ss, src) == 1);
    assert(count_writes(ss, sink) == 1) by {
        assert(count_writes(ls, sink) == 0);
    }
    assert forall|x: Source|
        x != src && !source_within(x, base as int, n) implies #[trigger] count_reads(ss, x) == 0 by {
        assert(count_reads(ls, x) == 0);
    }
    assert forall|y: Sink|
        y != sink && !sink_within(y, base as int, n) implies #[trigger] count_writes(ss, y) == 0 by {
        assert(count_writes(ls, y) == 0);
    }
    assert forall|p: int|
        base <= p < base + n && #[trigger] ss[p - base] is OpenPipe implies count_reads(
            ss,
            Source::PipeReader(p as usize),
        ) == 1 && count_writes(ss, Sink::PipeWriter(p as usize)) == 1 by {
        assert(p != base);
        assert(ss[p - base] == ls[p - base - 1]);
        assert(ls[p - (base + 1)] is OpenPipe);
    }
    assert forall|p: int|
        base <= p < base + n && #[trigger] ss[p - base] is CreateFile implies count_writes(
            ss,
            Sink::File(p as usize),
        ) == 1 by {
        if p != base {
            assert(ss[p - base] == ls[p - base - 1]);
            assert(ls[p - (base + 1)] is CreateFile);
        }
    }
    assert forall|i: int| 0 <= i < n implies #[trigger] step_scoped(ss, base as int, i, src, sink) by {
        if 1 <= i <= m {
            assert(ss[i] == ls[i - 1]);
            assert(step_scoped(ls, (base + 1) as int, i - 1, src, fw));
            assert forall|q: int| base + 1 <= q < base + i implies ss[q - base] == #[trigger] ls[q - (base + 1)] by {}
        } else if i == m + 1 && w.len() > 0 {
            assert(ss[i] == w[0]);
            assert(ss[lo->Process_0 - base] == ls[lo->Process_0 - (base + 1)]);
        }
    }
}

proof fn lemma_plan_shape(e: ExprModel, src: Source, sink: Sink, base: nat)
    requires
        source_before(src, base as int),
        sink_before(sink, base as int),
        base + plan_of(e, src, sink, base).0.len() <= usize::MAX,
    ensures
        plan_shape(e, src, sink, base),
    decreases e,
{
    match e {
        ExprModel::Call(c) => lemma_shape_call(c, src, sink, base),
        ExprModel::Pipe(left, c) => {
            lemma_plan_shape(*left, src, Sink::PipeWriter(base as usize), base + 1);
            lemma_shape_pipe(*left, c, src, sink, base);
        },
        ExprModel::Redirect(left, c) => {
            lemma_plan_shape(*left, src, Sink::File(base as usize), base + 1);
            lemma_shape_redirect(*left, c, src, sink, base);
        },
    }
}

/// The plan of a command line uses the shell's standard input and standard
/// output once each, reads and writes every pipe it opens once at each end,
/// writes every file it creates once, refers in each step only to what
/// earlier steps opened, created or started, and takes its exit code from a
/// process that one of its steps started. (A plan this long must fit in
/// memory.)
pub proof fn law_plan_uses_each_endpoint_once(e: ExprModel)
    requires
        plan_of(e, Source::Stdin, Sink::Stdout, 0).0.len() <= usize::MAX,
    ensures
        plan_shape(e, Source::Stdin, Sink::Stdout, 0),
{
    lemma_plan_shape(e, Source::Stdin, Sink::Stdout, 0);
}

/// The call that stands last in an expression: the right side of its
/// outermost operator, or the expression itself.
pub open spec fn last_call(e: ExprModel) -> CallModel {
    match e {
        ExprModel::Call(c) => c,
        ExprModel::Pipe(_, c) => c,
        ExprModel::Redirect(_, c) => c,
    }
}

/// The step runs the call `c` (as a program, or as the built-in command it
/// names) with its output going to `sink`.
pub open spec fn runs(st: StepModel, c: CallModel, sink: Sink) -> bool {
    match st {
        StepModel::Spawn(c2, _, k) => c2 == c && k == sink,
        StepModel::RunBuildIn(b, _, k) => builtin_of(c) == Some(b) && k == sink,
        _ => false,
    }
}

/// The exit code of a call, or of a pipe however long, comes from the process
/// of its last call: the step that the outcome names runs the last call and
/// writes to the expression's sink, and no step of the plan waits for it
/// (so it is still there to be waited for when the exit code is read).
pub proof fn law_exit_code_from_last_call(e: ExprModel, src: Source, sink: Sink, base: nat)
    requires
        !(e is Redirect),
        source_before(src, base as int),
        sink_before(sink, base as int),
        base + plan_of(e, src, sink, base).0.len() <= usize::MAX,
    ensures
        ({
            let (ss, o) = plan_of(e, src, sink, base);
            &&& o is Process
            &&& base <= o->Process_0 < base + ss.len()
            &&& runs(ss[o->Process_0 - base], last_call(e), sink)
            &&& forall|i: int| 0 <= i < ss.len() ==> ss[i] != StepModel::Wait(o->Process_0)
        }),
{
    match e {
        ExprModel::Call(c) => {
            let (ss, o) = plan_of(e, src, sink, base);
            assert(ss == seq![call_step(c, src, sink)]);
        },
        ExprModel::Pipe(left, c) => {
            let pw = Sink::PipeWriter(base as usize);
            let pr = Source::PipeReader(base as usize);
            lemma_plan_shape(*left, src, pw, base + 1);
            let (ls, lo) = plan_of(*left, src, pw, base + 1);
            let r = call_step(c, pr, sink);
            let w = wait_for(lo);
            let (ss, o) = plan_of(e, src, sink, base);
            assert(ss == seq![StepModel::OpenPipe] + ls + seq![r] + w);
            let m = ls.len() as int;
            let k = base + 1 + m;
            assert(o == OutcomeModel::Process(k as usize));
            assert(ss[m + 1] == r);
            assert forall|i: int| 0 <= i < ss.len() implies ss[i] != StepModel::Wait(k as usize) by {
                if 1 <= i <= m {
                    assert(ss[i] == ls[i - 1]);
                    assert(step_scoped(ls, (base + 1) as int, i - 1, src, pw));
                } else if i > m + 1 {
                    assert(ss[i] == w[0]);
                }
            }
        },
        ExprModel::Redirect(..) => {},
    }
}

/// A redirect creates the file named by the program of the call on its
/// right before anything else, writes that name to its own sink last, and
/// its exit code is 0, with the name as what it printed.
pub proof fn law_redirect_creates_then_names_the_file(left: ExprModel, c: CallModel, src: Source, sink: Sink, base: nat)
    ensures
        ({
            let (ss, o) = plan_of(ExprModel::Redirect(Box::new(left), c), src, sink, base);
            &&& ss[0] == StepModel::CreateFile(c.prog)
            &&& ss.last() == StepModel::Write(c.prog, sink)
            &&& o == OutcomeModel::Finished(Some(c.prog), 0)
        }),
{
    let (ls, lo) = plan_of(left, src, Sink::File(base as usize), base + 1);
    let (ss, o) = plan_of(ExprModel::Redirect(Box::new(left), c), src, sink, base);
    assert(ss == seq![StepModel::CreateFile(c.prog)] + ls + wait_for(lo) + seq![StepModel::Write(c.prog, sink)]);
}

/// A pipe opens its pipe first, the left side writes into it, and the call on
/// the right reads from it.
pub proof fn law_pipe_connects_left_to_right(left: ExprModel, c: CallModel, src: Source, sink: Sink, base: nat)
    requires
        source_before(src, base as int),
        sink_before(sink, base as int),
        base + plan_of(ExprModel::Pipe(Box::new(left), c), src, sink, base).0.len() <= usize::MAX,
    ensures
        ({
            let (ss, o) = plan_of(ExprModel::Pipe(Box::new(left), c), src, sink, base);
            let (ls, lo) = plan_of(left, src, Sink::PipeWriter(base as usize), base + 1);
            &&& ss[0] == StepModel::OpenPipe
            &&& ss.subrange(1, ls.len() + 1int) == ls
            &&& ss[ls.len() + 1int] == call_step(c, Source::PipeReader(base as usize), sink)
        }),
{
    let (ls, lo) = plan_of(left, src, Sink::PipeWriter(base as usize), base + 1);
    let r = call_step(c, Source::PipeReader(base as usize), sink);
    let (ss, o) = plan_of(ExprModel::Pipe(Box::new(left), c), src, sink, base);
    assert(ss == seq![StepModel::OpenPipe] + ls + seq![r] + wait_for(lo));
    assert(ss.subrange(1, ls.len() + 1int) =~= ls);
}

/// Runs a built-in command given the environment's answer; a failure of the
/// command is a failure to start it.
pub fn interpret_buildin_call(buildin: &BuildInCommand, outcome: BuildInOutcome) -> (r: Result<BuildInProcess, InterperterError>)
    requires
        outcome_fits(buildin@, outcome),
    ensures
        outcome is Failed ==> r == Err::<BuildInProcess, InterperterError>(InterperterError::FailedToSpawn),
        outcome is DirectoryChanged ==> (r matches Ok(p) && p.stdout is None && p.status == ExitCode(0)),
        outcome matches BuildInOutcome::CurrentDirectory(d) ==> (r matches Ok(p) && p.stdout == Some(d)
            && p.status == ExitCode(0)),
{
    match buildin.execute(outcome) {
        Ok(p) => Ok(p),
        Err(_) => Err(InterperterError::FailedToSpawn),
    }
}

} // verus!
