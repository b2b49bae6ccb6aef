//! The decisions taken while running a chain: which file or pipe each command
//! reads and writes, when the chain stops after `&&` or `||`, and in what order
//! the work is done. The work itself (opening files, making pipes, starting and
//! waiting for programs) is left to the caller, which reports each outcome back.
use crate::parsing::Element;
use vstd::prelude::*;

verus! {

/// A place a command can read from, found next to it in the chain.
#[derive(PartialEq, Eq, Debug, Clone, Copy)]
pub enum Source<'a> {
    /// A file named by `< file`.
    File(&'a str),
    /// The text of the heredoc element at this position.
    Heredoc(usize),
}

/// What a command reads.
#[derive(PartialEq, Eq, Debug, Clone, Copy)]
pub enum Stdin {
    /// The shell's own input.
    Inherit,
    /// The file opened last.
    File,
    /// The text of the heredoc element at this position.
    Heredoc(usize),
    /// The read end of the pipe made for the output of the command at this
    /// position, an earlier command of the chain.
    Pipe(usize),
}

/// What a command writes.
#[derive(PartialEq, Eq, Debug, Clone, Copy)]
pub enum Stdout {
    /// The shell's own output.
    Inherit,
    /// The file opened last.
    File,
    /// The write end of the pipe just made for this command; its read end waits
    /// for a later command.
    Pipe,
}

/// Where the run of a chain stands.
#[derive(PartialEq, Eq, Debug, Clone, Copy)]
pub enum Stage {
    /// Looking for the next element to act on.
    Scan,
    /// Waiting to hear whether the input named before the command opened.
    InputBefore,
    /// Waiting to hear whether the input named after the command opened.
    InputAfter,
    /// Waiting to hear whether the command's output file opened.
    Output,
    /// Waiting to hear whether a pipe could be made for the command's output.
    PipeOutput,
    /// Waiting for the command to be started.
    Running,
    /// Waiting for the status of the last command started, at `&&` or `||`.
    Gate,
    /// The chain is over.
    Done,
}

/// The state of a chain's run.
#[derive(PartialEq, Eq, Debug, Clone, Copy)]
pub struct ExecState {
    /// The position of the element being acted on.
    pub idx: usize,
    /// How many commands preceded by a pipe have been started.
    pub cmd_idx: usize,
    pub stage: Stage,
    /// What the current command reads, as far as it is decided.
    pub stdin: Stdin,
    /// The position of the command for whose output the last pipe was made, while
    /// its read end waits for a reader.
    pub pending_pipe: Option<usize>,
}

/// What the caller is asked to do next.
#[derive(PartialEq, Eq, Debug, Clone, Copy)]
pub enum Action<'a> {
    /// Open this file for reading; report whether it opened.
    OpenInput(&'a str),
    /// Create (or truncate) this file for writing; report whether it opened.
    CreateOutput(&'a str),
    /// Open this file for appending, creating it if needed; report whether it opened.
    AppendOutput(&'a str),
    /// Make a pipe; report whether it could be made.
    MakePipe,
    /// Start the command at `idx` with this input and output; report when done.
    Run { idx: usize, stdin: Stdin, stdout: Stdout, is_piped: bool },
    /// Take the last command started (or the output kept from before) and report
    /// its status.
    AwaitLast,
    /// The chain is over.
    Finish,
    /// The chain is over with no status to report.
    Abort,
}

/// What the caller reports back.
#[derive(PartialEq, Eq, Debug, Clone, Copy)]
pub enum Event {
    /// The work asked for was done.
    Succeeded,
    /// The work asked for could not be done.
    Failed,
    /// The status of the last command: whether it succeeded, `None` where there
    /// is no status to report.
    Status(Option<bool>),
}

/// Whether the element at `i` is a pipe.
pub open spec fn pipe_at(es: Seq<Element>, i: int) -> bool {
    0 <= i < es.len() && es[i] is Pipe
}

/// Whether the command at `idx` stands next to a pipe.
pub open spec fn piped_at(es: Seq<Element>, idx: int) -> bool {
    pipe_at(es, idx + 1) || (idx > 0 && pipe_at(es, idx - 1))
}

/// How many of the first `k` elements are commands that stand next to a pipe.
pub open spec fn count_piped(es: Seq<Element>, k: int) -> nat
    decreases k,
{
    if k <= 0 {
        0
    } else {
        count_piped(es, k - 1) + if es[k - 1] is ElementCmd && piped_at(es, k - 1) {
            1nat
        } else {
            0nat
        }
    }
}

/// How many commands of the chain stand next to a pipe.
pub open spec fn piped_count(es: Seq<Element>) -> nat {
    count_piped(es, es.len() as int)
}

/// The input named before position `i`: the nearest `< file` or heredoc before it,
/// looking past operators and output files but not past a command.
pub open spec fn input_before<'a>(es: Seq<Element<'a>>, i: int) -> Option<Source<'a>>
    decreases i,
{
    if i <= 0 {
        None
    } else {
        match es[i - 1] {
            Element::RedirectIn(f) => Some(Source::File(f)),
            Element::Heredoc(_, _) => Some(Source::Heredoc((i - 1) as usize)),
            Element::ElementCmd(_) => None,
            _ => input_before(es, i - 1),
        }
    }
}

/// The input named right after the command at `idx`.
pub open spec fn input_after<'a>(es: Seq<Element<'a>>, idx: int) -> Option<Source<'a>> {
    if 0 <= idx + 1 < es.len() {
        match es[idx + 1] {
            Element::RedirectIn(f) => Some(Source::File(f)),
            Element::Heredoc(_, _) => Some(Source::Heredoc((idx + 1) as usize)),
            _ => None,
        }
    } else {
        None
    }
}

/// The output file a command names with `> file`.
pub open spec fn target_of<'a>(e: Element<'a>) -> Option<&'a str> {
    match e {
        Element::ElementCmd(c) => c.redirect_target,
        _ => None,
    }
}

/// The state at the element at `idx`, in `stage`, reading `stdin`, with the read
/// end of the pipe made for the output of the command at `pending` still waiting
/// for a reader.
pub open spec fn at(
    idx: int,
    cmd_idx: int,
    stage: Stage,
    stdin: Stdin,
    pending: Option<usize>,
) -> ExecState {
    ExecState {
        idx: idx as usize,
        cmd_idx: cmd_idx as usize,
        stage,
        stdin,
        pending_pipe: pending,
    }
}

/// The command at `idx` is started with `stdin` and `stdout`.
pub open spec fn run_at<'a>(
    es: Seq<Element<'a>>,
    idx: int,
    cmd_idx: int,
    stdin: Stdin,
    stdout: Stdout,
    pending: Option<usize>,
) -> (ExecState, Action<'a>) {
    (
        at(idx, cmd_idx, Stage::Running, stdin, pending),
        Action::Run { idx: idx as usize, stdin, stdout, is_piped: piped_at(es, idx) },
    )
}

/// Where the command at `idx` writes: a file named right after it (`>` or `>>`),
/// else the file it names itself, else a pipe right after it (unless it is the
/// last command next to a pipe), else the shell's output.
pub open spec fn choose_output<'a>(
    es: Seq<Element<'a>>,
    total: nat,
    idx: int,
    cmd_idx: int,
    stdin: Stdin,
    pending: Option<usize>,
) -> (ExecState, Action<'a>) {
    let next_out = if 0 <= idx + 1 < es.len() {
        match es[idx + 1] {
            Element::RedirectOut(f) => Some(Action::CreateOutput(f)),
            Element::RedirectAppend(f) => Some(Action::AppendOutput(f)),
            _ => None,
        }
    } else {
        None
    };
    match next_out {
        Some(a) => (at(idx, cmd_idx, Stage::Output, stdin, pending), a),
        None => match target_of(es[idx]) {
            Some(t) => (
                at(idx, cmd_idx, Stage::Output, stdin, pending),
                Action::CreateOutput(t),
            ),
            None => if pipe_at(es, idx + 1) && cmd_idx + 1 < total {
                (at(idx, cmd_idx, Stage::PipeOutput, stdin, pending), Action::MakePipe)
            } else {
                run_at(es, idx, cmd_idx, stdin, Stdout::Inherit, pending)
            },
        },
    }
}

/// What a command next to a pipe reads when no input is named for it: the
/// waiting read end, which it takes, else the shell's input.
pub open spec fn pipe_input(pending: Option<usize>) -> Stdin {
    match pending {
        Some(w) => Stdin::Pipe(w),
        None => Stdin::Inherit,
    }
}

/// The input named right after the command at `idx` decides what it reads; with
/// none, a command next to a pipe takes the waiting read end (the shell's input if
/// there is none), and any other command reads the shell's input. This choice is
/// made before the command's own output is decided, so a command never reads the
/// pipe made for its own output.
pub open spec fn choose_input_after<'a>(
    es: Seq<Element<'a>>,
    total: nat,
    idx: int,
    cmd_idx: int,
    pending: Option<usize>,
) -> (ExecState, Action<'a>) {
    match input_after(es, idx) {
        Some(Source::File(f)) => (
            at(idx, cmd_idx, Stage::InputAfter, Stdin::Inherit, pending),
            Action::OpenInput(f),
        ),
        Some(Source::Heredoc(h)) => choose_output(
            es,
            total,
            idx,
            cmd_idx,
            Stdin::Heredoc(h),
            pending,
        ),
        None => if piped_at(es, idx) {
            choose_output(es, total, idx, cmd_idx, pipe_input(pending), None)
        } else {
            choose_output(es, total, idx, cmd_idx, Stdin::Inherit, pending)
        },
    }
}

/// The command at `idx` first looks for an input named before it.
pub open spec fn begin_command<'a>(
    es: Seq<Element<'a>>,
    total: nat,
    idx: int,
    cmd_idx: int,
    pending: Option<usize>,
) -> (ExecState, Action<'a>) {
    match input_before(es, idx) {
        Some(Source::File(f)) => (
            at(idx, cmd_idx, Stage::InputBefore, Stdin::Inherit, pending),
            Action::OpenInput(f),
        ),
        Some(Source::Heredoc(h)) => choose_output(
            es,
            total,
            idx,
            cmd_idx,
            Stdin::Heredoc(h),
            pending,
        ),
        None => choose_input_after(es, total, idx, cmd_idx, pending),
    }
}

/// From position `idx` on, the first command or `&&`/`||` is acted on; other
/// elements are passed over; past the end, the chain is over.
pub open spec fn scan_from<'a>(
    es: Seq<Element<'a>>,
    total: nat,
    idx: int,
    cmd_idx: int,
    pending: Option<usize>,
) -> (ExecState, Action<'a>)
    decreases es.len() - idx,
{
    if idx >= es.len() || idx < 0 {
        (at(idx, cmd_idx, Stage::Done, Stdin::Inherit, pending), Action::Finish)
    } else {
        match es[idx] {
            Element::ElementCmd(_) => begin_command(es, total, idx, cmd_idx, pending),
            Element::And => (
                at(idx, cmd_idx, Stage::Gate, Stdin::Inherit, pending),
                Action::AwaitLast,
            ),
            Element::Or => (
                at(idx, cmd_idx, Stage::Gate, Stdin::Inherit, pending),
                Action::AwaitLast,
            ),
            _ => scan_from(es, total, idx + 1, cmd_idx, pending),
        }
    }
}

/// The next state and action, from state `s` and the caller's report `ev` on the
/// last action.
pub open spec fn next_step<'a>(es: Seq<Element<'a>>, total: nat, s: ExecState, ev: Event) -> (
    ExecState,
    Action<'a>,
) {
    let idx = s.idx as int;
    let cmd_idx = s.cmd_idx as int;
    let pending = s.pending_pipe;
    let ok = ev is Succeeded;
    match s.stage {
        Stage::Scan => scan_from(es, total, idx, cmd_idx, pending),
        Stage::InputBefore => if ok {
            choose_output(es, total, idx, cmd_idx, Stdin::File, pending)
        } else {
            choose_input_after(es, total, idx, cmd_idx, pending)
        },
        Stage::InputAfter => if ok {
            choose_output(es, total, idx, cmd_idx, Stdin::File, pending)
        } else {
            scan_from(es, total, idx + 1, cmd_idx, pending)
        },
        Stage::Output => if ok {
            run_at(es, idx, cmd_idx, s.stdin, Stdout::File, pending)
        } else {
            scan_from(es, total, idx + 1, cmd_idx, pending)
        },
        Stage::PipeOutput => if ok {
            run_at(es, idx, cmd_idx, s.stdin, Stdout::Pipe, Some(idx as usize))
        } else {
            run_at(es, idx, cmd_idx, s.stdin, Stdout::Inherit, pending)
        },
        Stage::Running => scan_from(
            es,
            total,
            idx + 1,
            if pipe_at(es, idx - 1) {
                cmd_idx + 1
            } else {
                cmd_idx
            },
            pending,
        ),
        Stage::Gate => match ev {
            Event::Status(None) => (
                at(idx, cmd_idx, Stage::Done, Stdin::Inherit, pending),
                Action::Abort,
            ),
            Event::Status(Some(false)) => (
                at(idx, cmd_idx, Stage::Done, Stdin::Inherit, pending),
                Action::Finish,
            ),
            _ => scan_from(es, total, idx + 1, cmd_idx, pending),
        },
        Stage::Done => (s, Action::Finish),
    }
}

} // verus!

verus! {

/// Whether `s` is a state that a run of the chain `es` can be in.
pub open spec fn valid_state(es: Seq<Element>, s: ExecState) -> bool {
    &&& s.cmd_idx <= s.idx <= es.len()
    &&& (s.stage is InputBefore || s.stage is InputAfter || s.stage is Output
        || s.stage is PipeOutput || s.stage is Running) ==> s.idx < es.len()
        && es[s.idx as int] is ElementCmd
    &&& s.stage is Gate ==> s.idx < es.len() && (es[s.idx as int] is And || es[s.idx as int] is Or)
    &&& s.stdin matches Stdin::Heredoc(h) ==> h < es.len() && es[h as int] is Heredoc
    &&& s.stdin matches Stdin::Pipe(w) ==> {
        &&& w < s.idx && es[w as int] is ElementCmd && pipe_at(es, w + 1)
        &&& piped_at(es, s.idx as int)
    }
    &&& s.pending_pipe matches Some(w) ==> {
        &&& w < es.len() && es[w as int] is ElementCmd && pipe_at(es, w + 1)
        &&& w < s.idx || (w == s.idx && s.stage is Running)
    }
    &&& s.stage is PipeOutput ==> pipe_at(es, s.idx + 1)
}

/// Whether `ev` is the kind of report that `stage` waits for: a status at a gate,
/// success or failure elsewhere.
pub open spec fn fits(stage: Stage, ev: Event) -> bool {
    (stage is Gate) == (ev is Status)
}

/// Whether the element at `i` is a pipe.
fn is_pipe_at(es: &Vec<Element>, i: usize) -> (b: bool)
    ensures
        b == pipe_at(es@, i as int),
{
    if i < es.len() {
        match &es[i] {
            Element::Pipe => true,
            _ => false,
        }
    } else {
        false
    }
}

/// Whether the command at `idx` stands next to a pipe.
pub fn is_piped_at(es: &Vec<Element>, idx: usize) -> (b: bool)
    requires
        idx < es.len(),
    ensures
        b == piped_at(es@, idx as int),
{
    is_pipe_at(es, idx + 1) || (idx > 0 && is_pipe_at(es, idx - 1))
}

/// How many commands of the chain stand next to a pipe.
pub fn piped_commands(es: &Vec<Element>) -> (n: usize)
    ensures
        n == piped_count(es@),
{
    let mut n: usize = 0;
    let mut k: usize = 0;
    while k < es.len()
        invariant
            k <= es.len(),
            n == count_piped(es@, k as int),
            n <= k,
        decreases es.len() - k,
    {
        let is_cmd = match &es[k] {
            Element::ElementCmd(_) => true,
            _ => false,
        };
        if is_cmd && is_piped_at(es, k) {
            n = n + 1;
        }
        k = k + 1;
    }
    n
}

/// The input named before the command at `idx`.
fn find_input_before<'a>(es: &Vec<Element<'a>>, idx: usize) -> (r: Option<Source<'a>>)
    requires
        idx <= es.len(),
    ensures
        r == input_before(es@, idx as int),
        r matches Some(Source::Heredoc(h)) ==> h < idx && es@[h as int] is Heredoc,
{
    let mut i = idx;
    while i > 0
        invariant
            i <= idx <= es.len(),
            input_before(es@, idx as int) == input_before(es@, i as int),
        decreases i,
    {
        match &es[i - 1] {
            Element::RedirectIn(f) => {
                return Some(Source::File(*f));
            },
            Element::Heredoc(_, _) => {
                return Some(Source::Heredoc(i - 1));
            },
            Element::ElementCmd(_) => {
                return None;
            },
            _ => {},
        }
        i = i - 1;
    }
    None
}

/// The input named right after the command at `idx`.
fn find_input_after<'a>(es: &Vec<Element<'a>>, idx: usize) -> (r: Option<Source<'a>>)
    requires
        idx < es.len(),
    ensures
        r == input_after(es@, idx as int),
        r matches Some(Source::Heredoc(h)) ==> h < es.len() && es@[h as int] is Heredoc,
{
    if idx + 1 < es.len() {
        match &es[idx + 1] {
            Element::RedirectIn(f) => Some(Source::File(*f)),
            Element::Heredoc(_, _) => Some(Source::Heredoc(idx + 1)),
            _ => None,
        }
    } else {
        None
    }
}

/// Whether `stdin` can be what the command at `idx` reads.
pub open spec fn stdin_fits(es: Seq<Element>, stdin: Stdin, idx: int) -> bool {
    &&& stdin matches Stdin::Heredoc(h) ==> h < es.len() && es[h as int] is Heredoc
    &&& stdin matches Stdin::Pipe(w) ==> {
        &&& w < idx && es[w as int] is ElementCmd && pipe_at(es, w + 1)
        &&& piped_at(es, idx)
    }
}

/// Whether `pending` can name a waiting pipe when the element at `idx` is reached.
pub open spec fn pending_fits(es: Seq<Element>, pending: Option<usize>, idx: int) -> bool {
    pending matches Some(w) ==> w < es.len() && es[w as int] is ElementCmd && pipe_at(es, w + 1)
        && w < idx
}

fn state_at(idx: usize, cmd_idx: usize, stage: Stage, stdin: Stdin, pending: Option<usize>) -> (s:
    ExecState)
    ensures
        s == at(idx as int, cmd_idx as int, stage, stdin, pending),
{
    ExecState { idx, cmd_idx, stage, stdin, pending_pipe: pending }
}

fn run_command<'a>(
    es: &Vec<Element<'a>>,
    idx: usize,
    cmd_idx: usize,
    stdin: Stdin,
    stdout: Stdout,
    pending: Option<usize>,
) -> (r: (ExecState, Action<'a>))
    requires
        cmd_idx <= idx < es.len(),
        es@[idx as int] is ElementCmd,
        stdin_fits(es@, stdin, idx as int),
        pending_fits(es@, pending, idx + 1),
    ensures
        r == run_at(es@, idx as int, cmd_idx as int, stdin, stdout, pending),
        valid_state(es@, r.0),
{
    let is_piped = is_piped_at(es, idx);
    (
        state_at(idx, cmd_idx, Stage::Running, stdin, pending),
        Action::Run { idx, stdin, stdout, is_piped },
    )
}

fn output_for<'a>(
    es: &Vec<Element<'a>>,
    total: usize,
    idx: usize,
    cmd_idx: usize,
    stdin: Stdin,
    pending: Option<usize>,
) -> (r: (ExecState, Action<'a>))
    requires
        cmd_idx <= idx < es.len(),
        es@[idx as int] is ElementCmd,
        stdin_fits(es@, stdin, idx as int),
        pending_fits(es@, pending, idx as int),
    ensures
        r == choose_output(es@, total as nat, idx as int, cmd_idx as int, stdin, pending),
        valid_state(es@, r.0),
{
    if idx + 1 < es.len() {
        match &es[idx + 1] {
            Element::RedirectOut(f) => {
                return (
                    state_at(idx, cmd_idx, Stage::Output, stdin, pending),
                    Action::CreateOutput(*f),
                );
            },
            Element::RedirectAppend(f) => {
                return (
                    state_at(idx, cmd_idx, Stage::Output, stdin, pending),
                    Action::AppendOutput(*f),
                );
            },
            _ => {},
        }
    }
    let target = match &es[idx] {
        Element::ElementCmd(c) => c.redirect_target,
        _ => None,
    };
    match target {
        Some(t) => (
            state_at(idx, cmd_idx, Stage::Output, stdin, pending),
            Action::CreateOutput(t),
        ),
        None => {
            if is_pipe_at(es, idx + 1) && cmd_idx + 1 < total {
                (state_at(idx, cmd_idx, Stage::PipeOutput, stdin, pending), Action::MakePipe)
            } else {
                run_command(es, idx, cmd_idx, stdin, Stdout::Inherit, pending)
            }
        },
    }
}

fn input_after_for<'a>(
    es: &Vec<Element<'a>>,
    total: usize,
    idx: usize,
    cmd_idx: usize,
    pending: Option<usize>,
) -> (r: (ExecState, Action<'a>))
    requires
        cmd_idx <= idx < es.len(),
        es@[idx as int] is ElementCmd,
        pending_fits(es@, pending, idx as int),
    ensures
        r == choose_input_after(es@, total as nat, idx as int, cmd_idx as int, pending),
        valid_state(es@, r.0),
{
    match find_input_after(es, idx) {
        Some(Source::File(f)) => (
            state_at(idx, cmd_idx, Stage::InputAfter, Stdin::Inherit, pending),
            Action::OpenInput(f),
        ),
        Some(Source::Heredoc(h)) => output_for(es, total, idx, cmd_idx, Stdin::Heredoc(h), pending),
        None => {
            if is_piped_at(es, idx) {
                let stdin = match pending {
                    Some(w) => Stdin::Pipe(w),
                    None => Stdin::Inherit,
                };
                output_for(es, total, idx, cmd_idx, stdin, None)
            } else {
                output_for(es, total, idx, cmd_idx, Stdin::Inherit, pending)
            }
        },
    }
}

fn command_at<'a>(
    es: &Vec<Element<'a>>,
    total: usize,
    idx: usize,
    cmd_idx: usize,
    pending: Option<usize>,
) -> (r: (ExecState, Action<'a>))
    requires
        cmd_idx <= idx < es.len(),
        es@[idx as int] is ElementCmd,
        pending_fits(es@, pending, idx as int),
    ensures
        r == begin_command(es@, total as nat, idx as int, cmd_idx as int, pending),
        valid_state(es@, r.0),
{
    match find_input_before(es, idx) {
        Some(Source::File(f)) => (
            state_at(idx, cmd_idx, Stage::InputBefore, Stdin::Inherit, pending),
            Action::OpenInput(f),
        ),
        Some(Source::Heredoc(h)) => output_for(es, total, idx, cmd_idx, Stdin::Heredoc(h), pending),
        None => input_after_for(es, total, idx, cmd_idx, pending),
    }
}

fn scan<'a>(
    es: &Vec<Element<'a>>,
    total: usize,
    idx: usize,
    cmd_idx: usize,
    pending: Option<usize>,
) -> (r: (ExecState, Action<'a>))
    requires
        cmd_idx <= idx <= es.len(),
        pending_fits(es@, pending, idx as int),
    ensures
        r == scan_from(es@, total as nat, idx as int, cmd_idx as int, pending),
        valid_state(es@, r.0),
{
    let mut i = idx;
    while i < es.len()
        invariant
            cmd_idx <= idx <= i <= es.len(),
            pending_fits(es@, pending, i as int),
            scan_from(es@, total as nat, idx as int, cmd_idx as int, pending) == scan_from(
                es@,
                total as nat,
                i as int,
                cmd_idx as int,
                pending,
            ),
        decreases es.len() - i,
    {
        match &es[i] {
            Element::ElementCmd(_) => {
                return command_at(es, total, i, cmd_idx, pending);
            },
            Element::And => {
                return (
                    state_at(i, cmd_idx, Stage::Gate, Stdin::Inherit, pending),
                    Action::AwaitLast,
                );
            },
            Element::Or => {
                return (
                    state_at(i, cmd_idx, Stage::Gate, Stdin::Inherit, pending),
                    Action::AwaitLast,
                );
            },
            _ => {},
        }
        i = i + 1;
    }
    (state_at(i, cmd_idx, Stage::Done, Stdin::Inherit, pending), Action::Finish)
}

} // verus!

verus! {

impl ExecState {
    /// The state a chain's run starts in: no pipe is waiting.
    pub fn start() -> (s: ExecState)
        ensures
            s == at(0, 0, Stage::Scan, Stdin::Inherit, None),
    {
        ExecState {
            idx: 0,
            cmd_idx: 0,
            stage: Stage::Scan,
            stdin: Stdin::Inherit,
            pending_pipe: None,
        }
    }
}

/// The next state and action, from the state `s` of the run of the chain `es` and
/// the report `ev` on the last action; `total` is the number of commands of the
/// chain that stand next to a pipe.
pub fn step<'a>(es: &Vec<Element<'a>>, total: usize, s: ExecState, ev: Event) -> (r: (
    ExecState,
    Action<'a>,
))
    requires
        valid_state(es@, s),
        total == piped_count(es@),
        fits(s.stage, ev),
    ensures
        r == next_step(es@, total as nat, s, ev),
        valid_state(es@, r.0),
{
    let idx = s.idx;
    let cmd_idx = s.cmd_idx;
    let pending = s.pending_pipe;
    proof {
        if !(s.stage is Scan) && !(s.stage is Done) {
            assert(idx < es.len());
        }
    }
    let ok = match ev {
        Event::Succeeded => true,
        _ => false,
    };
    match s.stage {
        Stage::Scan => scan(es, total, idx, cmd_idx, pending),
        Stage::InputBefore => if ok {
            output_for(es, total, idx, cmd_idx, Stdin::File, pending)
        } else {
            input_after_for(es, total, idx, cmd_idx, pending)
        },
        Stage::InputAfter => if ok {
            output_for(es, total, idx, cmd_idx, Stdin::File, pending)
        } else {
            scan(es, total, idx + 1, cmd_idx, pending)
        },
        Stage::Output => if ok {
            run_command(es, idx, cmd_idx, s.stdin, Stdout::File, pending)
        } else {
            scan(es, total, idx + 1, cmd_idx, pending)
        },
        Stage::PipeOutput => if ok {
            run_command(es, idx, cmd_idx, s.stdin, Stdout::Pipe, Some(idx))
        } else {
            run_command(es, idx, cmd_idx, s.stdin, Stdout::Inherit, pending)
        },
        Stage::Running => {
            let next_cmd_idx = if idx > 0 && is_pipe_at(es, idx - 1) {
                cmd_idx + 1
            } else {
                cmd_idx
            };
            scan(es, total, idx + 1, next_cmd_idx, pending)
        },
        Stage::Gate => match ev {
            Event::Status(None) => (
                state_at(idx, cmd_idx, Stage::Done, Stdin::Inherit, pending),
                Action::Abort,
            ),
            Event::Status(Some(false)) => (
                state_at(idx, cmd_idx, Stage::Done, Stdin::Inherit, pending),
                Action::Finish,
            ),
            _ => scan(es, total, idx + 1, cmd_idx, pending),
        },
        Stage::Done => (s, Action::Finish),
    }
}

} // verus!
