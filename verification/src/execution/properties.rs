//! What holds of every run of a chain.
use crate::execution::elements::{
    begin_command, choose_input_after, choose_output, count_piped, fits, input_after, input_before, next_step,
    pending_fits, pipe_at, pipe_input, piped_at, scan_from, stdin_fits, target_of, valid_state, Action,
    ExecState, Event, Source, Stage, Stdin, Stdout,
};
use crate::parsing::Element;
use vstd::prelude::*;

verus! {

/// The action `a` asked for in state `s` concerns the elements it names: a
/// command is started only at a command, with a pipe for output only when a pipe
/// follows it, and reading a pipe only when it stands next to one and the pipe was
/// made for an earlier command's output, never its own; a file is only
/// opened where the chain names it; the chain waits for a status only at `&&` or
/// `||`, and ends only in the final stage.
pub open spec fn action_fits<'a>(es: Seq<Element<'a>>, s: ExecState, a: Action<'a>) -> bool {
    match a {
        Action::Run { idx, stdin, stdout, is_piped } => {
            &&& idx == s.idx && s.stage is Running
            &&& idx < es.len() && es[idx as int] is ElementCmd
            &&& is_piped == piped_at(es, idx as int)
            &&& stdout is Pipe ==> pipe_at(es, idx + 1)
            &&& stdin matches Stdin::Pipe(w) ==> {
                &&& w < idx && es[w as int] is ElementCmd && pipe_at(es, w + 1)
                &&& is_piped
            }
            &&& stdin == s.stdin
        },
        Action::OpenInput(f) => {
            &&& s.stage is InputBefore || s.stage is InputAfter
            &&& exists|i: int| 0 <= i < es.len() && es[i] == Element::RedirectIn(f)
        },
        Action::CreateOutput(f) => {
            &&& s.stage is Output
            &&& (s.idx + 1 < es.len() && es[s.idx + 1] == Element::RedirectOut(f))
                || target_of(es[s.idx as int]) == Some(f)
        },
        Action::AppendOutput(f) => {
            &&& s.stage is Output
            &&& s.idx + 1 < es.len() && es[s.idx + 1] == Element::RedirectAppend(f)
        },
        Action::MakePipe => s.stage is PipeOutput && pipe_at(es, s.idx + 1),
        Action::AwaitLast => s.stage is Gate,
        Action::Finish => s.stage is Done,
        Action::Abort => s.stage is Done,
    }
}

/// How far along a stage is within the work on one element.
pub open spec fn stage_rank(st: Stage) -> nat {
    match st {
        Stage::Scan => 7,
        Stage::InputBefore => 6,
        Stage::Gate => 6,
        Stage::InputAfter => 4,
        Stage::Output => 3,
        Stage::PipeOutput => 3,
        Stage::Running => 2,
        Stage::Done => 0,
    }
}

/// A bound on the steps left in a run.
pub open spec fn steps_left(es: Seq<Element>, s: ExecState) -> int {
    if s.stage is Done {
        0
    } else {
        (es.len() - s.idx + 1) * 8 + stage_rank(s.stage)
    }
}

proof fn lemma_input_before(es: Seq<Element>, i: int)
    requires
        0 <= i <= es.len(),
    ensures
        input_before(es, i) matches Some(Source::File(f)) ==> exists|j: int|
            0 <= j < es.len() && es[j] == Element::RedirectIn(f),
    decreases i,
{
    if i > 0 {
        match es[i - 1] {
            Element::RedirectIn(f) => {
                assert(es[i - 1] == Element::RedirectIn(f));
            },
            Element::Heredoc(_, _) => {},
            Element::ElementCmd(_) => {},
            _ => {
                lemma_input_before(es, i - 1);
            },
        }
    }
}

proof fn lemma_choose_output<'a>(
    es: Seq<Element<'a>>,
    total: nat,
    idx: int,
    cmd_idx: int,
    stdin: Stdin,
    pending: Option<usize>,
)
    requires
        es.len() <= usize::MAX,
        0 <= cmd_idx <= idx < es.len(),
        es[idx] is ElementCmd,
        stdin_fits(es, stdin, idx),
        pending_fits(es, pending, idx),
    ensures
        ({
            let (s, a) = choose_output(es, total, idx, cmd_idx, stdin, pending);
            &&& valid_state(es, s)
            &&& action_fits(es, s, a)
            &&& s.idx == idx
            &&& s.cmd_idx == cmd_idx
            &&& stage_rank(s.stage) <= 3
            &&& !(s.stage is Done)
        }),
{
    if idx + 1 < es.len() {
        match es[idx + 1] {
            Element::RedirectOut(f) => {
                assert(es[idx + 1] == Element::RedirectOut(f));
            },
            Element::RedirectAppend(f) => {
                assert(es[idx + 1] == Element::RedirectAppend(f));
            },
            _ => {},
        }
    }
}

proof fn lemma_choose_input_after<'a>(
    es: Seq<Element<'a>>,
    total: nat,
    idx: int,
    cmd_idx: int,
    pending: Option<usize>,
)
    requires
        pending_fits(es, pending, idx),
        es.len() <= usize::MAX,
        0 <= cmd_idx <= idx < es.len(),
        es[idx] is ElementCmd,
    ensures
        ({
            let (s, a) = choose_input_after(es, total, idx, cmd_idx, pending);
            &&& valid_state(es, s)
            &&& action_fits(es, s, a)
            &&& s.idx == idx
            &&& s.cmd_idx == cmd_idx
            &&& stage_rank(s.stage) <= 4
            &&& !(s.stage is Done)
        }),
{
    match input_after(es, idx) {
        Some(Source::File(f)) => {
            assert(es[idx + 1] == Element::RedirectIn(f));
        },
        Some(Source::Heredoc(h)) => {
            lemma_choose_output(es, total, idx, cmd_idx, Stdin::Heredoc(h), pending);
        },
        None => {
            if piped_at(es, idx) {
                lemma_choose_output(es, total, idx, cmd_idx, pipe_input(pending), None);
            } else {
                lemma_choose_output(es, total, idx, cmd_idx, Stdin::Inherit, pending);
            }
        },
    }
}

proof fn lemma_begin_command<'a>(
    es: Seq<Element<'a>>,
    total: nat,
    idx: int,
    cmd_idx: int,
    pending: Option<usize>,
)
    requires
        pending_fits(es, pending, idx),
        es.len() <= usize::MAX,
        0 <= cmd_idx <= idx < es.len(),
        es[idx] is ElementCmd,
    ensures
        ({
            let (s, a) = begin_command(es, total, idx, cmd_idx, pending);
            &&& valid_state(es, s)
            &&& action_fits(es, s, a)
            &&& s.idx == idx
            &&& s.cmd_idx == cmd_idx
            &&& stage_rank(s.stage) <= 6
            &&& !(s.stage is Done)
        }),
{
    lemma_input_before(es, idx);
    lemma_input_before_heredoc(es, idx);
    match input_before(es, idx) {
        Some(Source::File(f)) => {},
        Some(Source::Heredoc(h)) => {
            lemma_choose_output(es, total, idx, cmd_idx, Stdin::Heredoc(h), pending);
        },
        None => {
            lemma_choose_input_after(es, total, idx, cmd_idx, pending);
        },
    }
}

proof fn lemma_input_before_heredoc(es: Seq<Element>, i: int)
    requires
        es.len() <= usize::MAX,
        0 <= i <= es.len(),
    ensures
        input_before(es, i) matches Some(Source::Heredoc(h)) ==> h < i && es[h as int] is Heredoc,
    decreases i,
{
    if i > 0 {
        match es[i - 1] {
            Element::RedirectIn(_) => {},
            Element::Heredoc(_, _) => {},
            Element::ElementCmd(_) => {},
            _ => {
                lemma_input_before_heredoc(es, i - 1);
            },
        }
    }
}

proof fn lemma_scan_from<'a>(
    es: Seq<Element<'a>>,
    total: nat,
    idx: int,
    cmd_idx: int,
    pending: Option<usize>,
)
    requires
        pending_fits(es, pending, idx),
        es.len() <= usize::MAX,
        0 <= cmd_idx <= idx <= es.len(),
    ensures
        ({
            let (s, a) = scan_from(es, total, idx, cmd_idx, pending);
            &&& valid_state(es, s)
            &&& action_fits(es, s, a)
            &&& s.idx >= idx
            &&& s.cmd_idx == cmd_idx
            &&& s.stage is Done || (s.idx < es.len() && stage_rank(s.stage) <= 6)
        }),
    decreases es.len() - idx,
{
    if idx < es.len() {
        match es[idx] {
            Element::ElementCmd(_) => {
                lemma_begin_command(es, total, idx, cmd_idx, pending);
            },
            Element::And => {},
            Element::Or => {},
            _ => {
                lemma_scan_from(es, total, idx + 1, cmd_idx, pending);
            },
        }
    }
}

/// Every step keeps the run in a state it can be in, asks for an action that fits
/// that state, and, until the run is over, brings it closer to its end: a chain's
/// run always ends, after at most `8 * (n + 1) + 7` steps for `n` elements.
pub proof fn lemma_step_sound<'a>(es: Seq<Element<'a>>, total: nat, s: ExecState, ev: Event)
    requires
        es.len() <= usize::MAX,
        valid_state(es, s),
        fits(s.stage, ev),
    ensures
        valid_state(es, next_step(es, total, s, ev).0),
        !(s.stage is Done) ==> action_fits(es, next_step(es, total, s, ev).0, next_step(es, total, s, ev).1),
        !(s.stage is Done) ==> steps_left(es, next_step(es, total, s, ev).0) < steps_left(es, s),
        0 <= steps_left(es, next_step(es, total, s, ev).0),
{
    let idx = s.idx as int;
    let cmd_idx = s.cmd_idx as int;
    let pending = s.pending_pipe;
    let ok = ev is Succeeded;
    match s.stage {
        Stage::Scan => {
            lemma_scan_from(es, total, idx, cmd_idx, pending);
        },
        Stage::InputBefore => {
            if ok {
                lemma_choose_output(es, total, idx, cmd_idx, Stdin::File, pending);
            } else {
                lemma_choose_input_after(es, total, idx, cmd_idx, pending);
            }
        },
        Stage::InputAfter => {
            if ok {
                lemma_choose_output(es, total, idx, cmd_idx, Stdin::File, pending);
            } else {
                lemma_scan_from(es, total, idx + 1, cmd_idx, pending);
            }
        },
        Stage::Output => {
            if !ok {
                lemma_scan_from(es, total, idx + 1, cmd_idx, pending);
            }
        },
        Stage::PipeOutput => {},
        Stage::Running => {
            lemma_scan_from(
                es,
                total,
                idx + 1,
                if pipe_at(es, idx - 1) {
                    cmd_idx + 1
                } else {
                    cmd_idx
                },
                pending,
            );
        },
        Stage::Gate => {
            match ev {
                Event::Status(None) => {},
                Event::Status(Some(false)) => {},
                _ => {
                    lemma_scan_from(es, total, idx + 1, cmd_idx, pending);
                },
            }
        },
        Stage::Done => {},
    }
}

} // verus!

verus! {

/// Making a pipe for a command's output leaves its read end waiting, named by that
/// command's position, and the command writes to the pipe.
pub proof fn lemma_pipe_made<'a>(es: Seq<Element<'a>>, total: nat, s: ExecState)
    requires
        valid_state(es, s),
        s.stage is PipeOutput,
    ensures
        next_step(es, total, s, Event::Succeeded).0.pending_pipe == Some(s.idx),
        next_step(es, total, s, Event::Succeeded).1 == (Action::Run {
            idx: s.idx,
            stdin: s.stdin,
            stdout: Stdout::Pipe,
            is_piped: piped_at(es, s.idx as int),
        }),
{
}

/// A command next to a pipe, with no input named for it, takes the waiting read
/// end, so it reads the pipe made for the last earlier command that wrote to one;
/// with none waiting (the first command of a pipeline), it reads the shell's input.
/// Either way nothing waits any more. Its input is chosen before its own output,
/// so it never reads the pipe made for its own output.
pub proof fn lemma_pipe_taken<'a>(
    es: Seq<Element<'a>>,
    total: nat,
    idx: int,
    cmd_idx: int,
    pending: Option<usize>,
)
    requires
        es.len() <= usize::MAX,
        0 <= cmd_idx <= idx < es.len(),
        es[idx] is ElementCmd,
        pending_fits(es, pending, idx),
        input_after(es, idx) is None,
        piped_at(es, idx),
    ensures
        choose_input_after(es, total, idx, cmd_idx, pending).0.stdin == pipe_input(pending),
        choose_input_after(es, total, idx, cmd_idx, pending).0.pending_pipe is None,
        pending matches Some(w) ==> w < idx,
{
}

} // verus!

verus! {

/// The count of commands started after a pipe never runs ahead of the commands
/// next to a pipe that stand before the current position.
pub open spec fn counted(es: Seq<Element>, s: ExecState) -> bool {
    s.cmd_idx <= count_piped(es, s.idx as int)
}

proof fn lemma_count_piped_mono(es: Seq<Element>, a: int, b: int)
    requires
        0 <= a <= b,
    ensures
        count_piped(es, a) <= count_piped(es, b),
    decreases b - a,
{
    if a < b {
        lemma_count_piped_mono(es, a, b - 1);
    }
}

/// A run starts counted.
pub proof fn lemma_counted_start(es: Seq<Element>)
    ensures
        counted(es, ExecState {
            idx: 0,
            cmd_idx: 0,
            stage: Stage::Scan,
            stdin: Stdin::Inherit,
            pending_pipe: None,
        }),
{
}

/// Every step keeps a run counted: only a command started right after a pipe
/// counts, and it stands next to that pipe.
pub proof fn lemma_counted_step<'a>(es: Seq<Element<'a>>, total: nat, s: ExecState, ev: Event)
    requires
        es.len() <= usize::MAX,
        valid_state(es, s),
        counted(es, s),
        fits(s.stage, ev),
    ensures
        counted(es, next_step(es, total, s, ev).0),
{
    lemma_step_sound(es, total, s, ev);
    let r = next_step(es, total, s, ev).0;
    let idx = s.idx as int;
    let cmd_idx = s.cmd_idx as int;
    let pending = s.pending_pipe;
    let ok = ev is Succeeded;
    match s.stage {
        Stage::Scan => {
            lemma_scan_from(es, total, idx, cmd_idx, pending);
        },
        Stage::InputBefore => {
            if ok {
                lemma_choose_output(es, total, idx, cmd_idx, Stdin::File, pending);
            } else {
                lemma_choose_input_after(es, total, idx, cmd_idx, pending);
            }
        },
        Stage::InputAfter => {
            if ok {
                lemma_choose_output(es, total, idx, cmd_idx, Stdin::File, pending);
            } else {
                lemma_scan_from(es, total, idx + 1, cmd_idx, pending);
            }
        },
        Stage::Output => {
            if !ok {
                lemma_scan_from(es, total, idx + 1, cmd_idx, pending);
            }
        },
        Stage::PipeOutput => {},
        Stage::Running => {
            let c2 = if pipe_at(es, idx - 1) {
                cmd_idx + 1
            } else {
                cmd_idx
            };
            assert(count_piped(es, idx + 1) == count_piped(es, idx) + if es[idx] is ElementCmd
                && piped_at(es, idx) {
                1nat
            } else {
                0nat
            });
            lemma_scan_from(es, total, idx + 1, c2, pending);
            lemma_count_piped_mono(es, idx + 1, r.idx as int);
        },
        Stage::Gate => {
            match ev {
                Event::Status(None) => {},
                Event::Status(Some(false)) => {},
                _ => {
                    lemma_scan_from(es, total, idx + 1, cmd_idx, pending);
                },
            }
        },
        Stage::Done => {},
    }
    if r.idx as int >= idx {
        lemma_count_piped_mono(es, idx, r.idx as int);
    }
}

} // verus!

verus! {

/// Whether the state `s` is not yet past the choice of input of the command at `i`.
pub open spec fn before_output(s: ExecState, i: int) -> bool {
    s.idx < i || (s.idx == i && (s.stage is Scan || s.stage is InputBefore
        || s.stage is InputAfter))
}

/// Whether a stage waits for an input file to open.
pub open spec fn input_stage(st: Stage) -> bool {
    st is InputBefore || st is InputAfter
}

proof fn lemma_choose_output_keeps<'a>(
    es: Seq<Element<'a>>,
    total: nat,
    i: int,
    c: int,
    stdin: Stdin,
    p: Option<usize>,
)
    ensures
        choose_output(es, total, i, c, stdin, p).0.stdin == stdin,
        choose_output(es, total, i, c, stdin, p).0.pending_pipe == p,
        choose_output(es, total, i, c, stdin, p).0.idx == i as usize,
        choose_output(es, total, i, c, stdin, p).0.cmd_idx == c as usize,
        !input_stage(choose_output(es, total, i, c, stdin, p).0.stage),
        choose_output(es, total, i, c, stdin, p).1 matches Action::Run { stdin: x, .. } ==> x
            == stdin,
{
}

proof fn lemma_input_after_lands<'a>(
    es: Seq<Element<'a>>,
    total: nat,
    i: int,
    c: int,
    p: Option<usize>,
)
    ensures
        ({
            let r = choose_input_after(es, total, i, c, p);
            &&& r.0.idx == i as usize
            &&& r.0.cmd_idx == c as usize
            &&& !input_stage(r.0.stage) ==> r == choose_output(
                es,
                total,
                i,
                c,
                r.0.stdin,
                r.0.pending_pipe,
            )
        }),
{
    match input_after(es, i) {
        Some(Source::File(f)) => {},
        Some(Source::Heredoc(h)) => {
            lemma_choose_output_keeps(es, total, i, c, Stdin::Heredoc(h), p);
        },
        None => {
            if piped_at(es, i) {
                lemma_choose_output_keeps(es, total, i, c, pipe_input(p), None);
            } else {
                lemma_choose_output_keeps(es, total, i, c, Stdin::Inherit, p);
            }
        },
    }
}

proof fn lemma_begin_lands<'a>(es: Seq<Element<'a>>, total: nat, i: int, c: int, p: Option<usize>)
    ensures
        ({
            let r = begin_command(es, total, i, c, p);
            &&& r.0.idx == i as usize
            &&& r.0.cmd_idx == c as usize
            &&& !input_stage(r.0.stage) ==> r == choose_output(
                es,
                total,
                i,
                c,
                r.0.stdin,
                r.0.pending_pipe,
            )
        }),
{
    lemma_input_after_lands(es, total, i, c, p);
    match input_before(es, i) {
        Some(Source::File(f)) => {},
        Some(Source::Heredoc(h)) => {
            lemma_choose_output_keeps(es, total, i, c, Stdin::Heredoc(h), p);
        },
        None => {},
    }
}

proof fn lemma_scan_lands<'a>(
    es: Seq<Element<'a>>,
    total: nat,
    j: int,
    c: int,
    p: Option<usize>,
    i: int,
)
    requires
        es.len() <= usize::MAX,
        0 <= j <= i < es.len(),
        es[i] is ElementCmd,
    ensures
        ({
            let r = scan_from(es, total, j, c, p);
            r.0.idx == i as usize && !input_stage(r.0.stage) ==> r == choose_output(
                es,
                total,
                i,
                c,
                r.0.stdin,
                r.0.pending_pipe,
            )
        }),
    decreases i - j,
{
    match es[j] {
        Element::ElementCmd(_) => {
            lemma_begin_lands(es, total, j, c, p);
        },
        Element::And => {},
        Element::Or => {},
        _ => {
            lemma_scan_lands(es, total, j + 1, c, p, i);
        },
    }
}

/// Wherever a step comes from, once it has passed the choice of input of the
/// command at `i`, it is at the choice of that command's output.
proof fn lemma_next_lands<'a>(es: Seq<Element<'a>>, total: nat, s: ExecState, ev: Event, i: int)
    requires
        es.len() <= usize::MAX,
        valid_state(es, s),
        0 <= i < es.len(),
        es[i] is ElementCmd,
        before_output(s, i),
    ensures
        ({
            let r = next_step(es, total, s, ev);
            r.0.idx == i as usize && !input_stage(r.0.stage) ==> r == choose_output(
                es,
                total,
                i,
                r.0.cmd_idx as int,
                r.0.stdin,
                r.0.pending_pipe,
            )
        }),
{
    let idx = s.idx as int;
    let cmd_idx = s.cmd_idx as int;
    let pending = s.pending_pipe;
    let ok = ev is Succeeded;
    match s.stage {
        Stage::Scan => {
            lemma_scan_lands(es, total, idx, cmd_idx, pending, i);
            lemma_scan_from_cmd_idx(es, total, idx, cmd_idx, pending);
        },
        Stage::InputBefore => {
            if ok {
                lemma_choose_output_keeps(es, total, idx, cmd_idx, Stdin::File, pending);
            } else {
                lemma_input_after_lands(es, total, idx, cmd_idx, pending);
            }
        },
        Stage::InputAfter => {
            if ok {
                lemma_choose_output_keeps(es, total, idx, cmd_idx, Stdin::File, pending);
            } else if idx < i {
                lemma_scan_lands(es, total, idx + 1, cmd_idx, pending, i);
                lemma_scan_from_cmd_idx(es, total, idx + 1, cmd_idx, pending);
            } else {
                lemma_scan_from_idx(es, total, idx + 1, cmd_idx, pending);
            }
        },
        Stage::Output => {
            if !ok {
                lemma_scan_lands(es, total, idx + 1, cmd_idx, pending, i);
                lemma_scan_from_cmd_idx(es, total, idx + 1, cmd_idx, pending);
            }
        },
        Stage::PipeOutput => {},
        Stage::Running => {
            let c2 = if pipe_at(es, idx - 1) {
                cmd_idx + 1
            } else {
                cmd_idx
            };
            lemma_scan_lands(es, total, idx + 1, c2, pending, i);
            lemma_scan_from_cmd_idx(es, total, idx + 1, c2, pending);
        },
        Stage::Gate => {
            match ev {
                Event::Status(None) => {},
                Event::Status(Some(false)) => {},
                _ => {
                    lemma_scan_lands(es, total, idx + 1, cmd_idx, pending, i);
                    lemma_scan_from_cmd_idx(es, total, idx + 1, cmd_idx, pending);
                },
            }
        },
        Stage::Done => {},
    }
}

proof fn lemma_scan_from_cmd_idx<'a>(
    es: Seq<Element<'a>>,
    total: nat,
    j: int,
    c: int,
    p: Option<usize>,
)
    requires
        es.len() <= usize::MAX,
        0 <= c,
        0 <= j,
    ensures
        scan_from(es, total, j, c, p).0.cmd_idx == c as usize,
    decreases es.len() - j,
{
    if j < es.len() {
        match es[j] {
            Element::ElementCmd(_) => {
                lemma_begin_lands(es, total, j, c, p);
            },
            Element::And => {},
            Element::Or => {},
            _ => {
                lemma_scan_from_cmd_idx(es, total, j + 1, c, p);
            },
        }
    }
}

proof fn lemma_scan_from_idx<'a>(es: Seq<Element<'a>>, total: nat, j: int, c: int, p: Option<usize>)
    requires
        es.len() <= usize::MAX,
        0 <= j <= es.len(),
    ensures
        scan_from(es, total, j, c, p).0.idx >= j,
    decreases es.len() - j,
{
    if j < es.len() {
        match es[j] {
            Element::ElementCmd(_) => {
                lemma_begin_lands(es, total, j, c, p);
            },
            Element::And => {},
            Element::Or => {},
            _ => {
                lemma_scan_from_idx(es, total, j + 1, c, p);
            },
        }
    }
}

} // verus!

verus! {

/// In a run, a command `i` followed by `|` and another command, whose own output
/// file is not named, gets a pipe for its output: once its input is chosen the
/// run asks for a pipe, whatever commands, `&&` and `||` come before it.
pub proof fn lemma_pipeline_makes_pipe<'a>(
    es: Seq<Element<'a>>,
    total: nat,
    s: ExecState,
    ev: Event,
    i: int,
)
    requires
        es.len() <= usize::MAX,
        valid_state(es, s),
        counted(es, s),
        fits(s.stage, ev),
        total == crate::execution::elements::piped_count(es),
        0 <= i && i + 2 < es.len(),
        es[i] is ElementCmd,
        target_of(es[i]) is None,
        es[i + 1] is Pipe,
        es[i + 2] is ElementCmd,
        before_output(s, i),
    ensures
        ({
            let r = next_step(es, total, s, ev);
            r.0.idx == i as usize && !input_stage(r.0.stage) ==> r.0.stage is PipeOutput && r.1
                == Action::MakePipe
        }),
{
    let r = next_step(es, total, s, ev);
    lemma_next_lands(es, total, s, ev, i);
    lemma_counted_step(es, total, s, ev);
    if r.0.idx == i as usize && !input_stage(r.0.stage) {
        let c = r.0.cmd_idx as int;
        assert(c <= count_piped(es, i));
        assert(piped_at(es, i));
        assert(piped_at(es, i + 2));
        assert(count_piped(es, i + 1) == count_piped(es, i) + 1);
        assert(count_piped(es, i + 2) == count_piped(es, i + 1));
        assert(count_piped(es, i + 3) == count_piped(es, i + 2) + 1);
        lemma_count_piped_mono(es, i + 3, es.len() as int);
        assert(c + 1 < total);
    }
}

/// The command right after that `|` reads the pipe made for the command before
/// it: when the run leaves a command `i` that wrote to a new pipe, the next command
/// `i + 2`, with no input named right after it, reads that pipe, and so does every
/// later step that starts it.
pub proof fn lemma_pipeline_reads_pipe<'a>(
    es: Seq<Element<'a>>,
    total: nat,
    s: ExecState,
    ev: Event,
    i: int,
)
    requires
        es.len() <= usize::MAX,
        valid_state(es, s),
        fits(s.stage, ev),
        0 <= i && i + 2 < es.len(),
        s.stage is Running,
        s.idx == i,
        s.pending_pipe == Some(i as usize),
        es[i + 1] is Pipe,
        es[i + 2] is ElementCmd,
        i + 3 < es.len() ==> !(es[i + 3] is RedirectIn) && !(es[i + 3] is Heredoc),
    ensures
        ({
            let r = next_step(es, total, s, ev);
            &&& r.0.idx == (i + 2) as usize
            &&& r.0.stdin == Stdin::Pipe(i as usize)
            &&& r.1 matches Action::Run { stdin, .. } ==> stdin == Stdin::Pipe(i as usize)
        }),
{
    let c2 = if pipe_at(es, i - 1) {
        s.cmd_idx + 1
    } else {
        s.cmd_idx as int
    };
    assert(input_before(es, i + 1) is None);
    assert(input_before(es, i + 2) == input_before(es, i + 1));
    assert(input_after(es, i + 2) is None);
    assert(piped_at(es, i + 2));
    let p = s.pending_pipe;
    assert(next_step(es, total, s, ev) == scan_from(es, total, i + 1, c2, p));
    assert(scan_from(es, total, i + 1, c2, p) == scan_from(es, total, i + 2, c2, p));
    assert(scan_from(es, total, i + 2, c2, p) == begin_command(es, total, i + 2, c2, p));
    assert(begin_command(es, total, i + 2, c2, p) == choose_input_after(es, total, i + 2, c2, p));
    assert(choose_input_after(es, total, i + 2, c2, p) == choose_output(
        es,
        total,
        i + 2,
        c2,
        Stdin::Pipe(i as usize),
        None,
    ));
    lemma_choose_output_keeps(es, total, i + 2, c2, Stdin::Pipe(i as usize), None);
}

/// Once a command's output pipe is made, it is started writing to it; a command
/// whose output file opened is started writing to that file; and in both the input
/// chosen for it is kept.
pub proof fn lemma_output_used<'a>(es: Seq<Element<'a>>, total: nat, s: ExecState)
    requires
        valid_state(es, s),
        s.stage is PipeOutput || s.stage is Output,
    ensures
        next_step(es, total, s, Event::Succeeded).1 == (Action::Run {
            idx: s.idx,
            stdin: s.stdin,
            stdout: if s.stage is PipeOutput {
                Stdout::Pipe
            } else {
                Stdout::File
            },
            is_piped: piped_at(es, s.idx as int),
        }),
        next_step(es, total, s, Event::Succeeded).0.stdin == s.stdin,
{
}

/// A command that names its output file with `> f`, and has no `>`/`>>` element
/// right after it, has that file created for its output once its input is chosen,
/// whether or not it stands in a pipe.
pub proof fn lemma_named_output_file<'a>(
    es: Seq<Element<'a>>,
    total: nat,
    s: ExecState,
    ev: Event,
    i: int,
    f: &'a str,
)
    requires
        es.len() <= usize::MAX,
        valid_state(es, s),
        0 <= i < es.len(),
        es[i] is ElementCmd,
        target_of(es[i]) == Some(f),
        i + 1 < es.len() ==> !(es[i + 1] is RedirectOut) && !(es[i + 1] is RedirectAppend),
        before_output(s, i),
    ensures
        ({
            let r = next_step(es, total, s, ev);
            r.0.idx == i as usize && !input_stage(r.0.stage) ==> r.0.stage is Output && r.1
                == Action::CreateOutput(f)
        }),
{
    lemma_next_lands(es, total, s, ev, i);
}

} // verus!
