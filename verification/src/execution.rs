//! Built-in commands, and what running a command amounts to.
pub mod elements;
pub mod properties;
use crate::number::{parse_i32, parse_i32_spec};
use crate::parsing::{Cmd, CmdModel};
use crate::text::{chars_of, trim, trimmed};
use vstd::prelude::*;

verus! {

/// `cd`: change the working directory.
pub struct Cd {
    dir: String,
}

impl View for Cd {
    type V = Seq<char>;

    /// The directory to go to.
    closed spec fn view(&self) -> Seq<char> {
        self.dir@
    }
}

impl Cd {
    pub fn new(dir: String) -> (c: Self)
        ensures
            c@ == dir@,
    {
        Self { dir }
    }

    /// The directory to go to.
    pub fn dir(&self) -> (d: &str)
        ensures
            d@ == self@,
    {
        self.dir.as_str()
    }
}

/// `exit`: leave the shell with a status.
pub struct Exit {
    status: i32,
}

impl View for Exit {
    type V = i32;

    /// The status to leave with.
    closed spec fn view(&self) -> i32 {
        self.status
    }
}

impl Exit {
    pub fn new(status: i32) -> (e: Self)
        ensures
            e@ == status,
    {
        Self { status }
    }

    /// The status to leave with.
    pub fn status(&self) -> (s: i32)
        ensures
            s == self@,
    {
        self.status
    }
}

/// `history`: the commands entered so far, kept in a file.
pub struct History {
    history_file_path: String,
}

impl View for History {
    type V = Seq<char>;

    /// The path of the history file.
    closed spec fn view(&self) -> Seq<char> {
        self.history_file_path@
    }
}

impl History {
    /// Assumes that the file exists, or can be created.
    pub fn new(history_file_path: String) -> (h: Self)
        ensures
            h@ == history_file_path@,
    {
        Self { history_file_path }
    }

    /// The history kept at the path that the setting `HISTORY_PATH` names, or
    /// at `.history` where it is not set.
    pub fn from_setting(setting: Option<String>) -> (h: Self)
        ensures
            h@ == match setting {
                Some(p) => p@,
                None => ".history"@,
            },
    {
        match setting {
            Some(p) => History::new(p),
            None => History::new(String::from_str(".history")),
        }
    }

    /// The path of the history file.
    pub fn path(&self) -> (p: &str)
        ensures
            p@ == self@,
    {
        self.history_file_path.as_str()
    }
}

/// What running a command amounts to.
#[derive(PartialEq, Eq, Debug, Clone, Copy)]
pub enum Builtin<'a> {
    /// `cd` with no directory: nothing happens.
    CdNowhere,
    /// `cd dir`.
    Cd(&'a str),
    /// `pwd`: print the working directory.
    Pwd,
    /// `exit`, not in a pipe: leave the shell with this status.
    Exit(i32),
    /// `exit` in a pipe: report this status, and stay.
    ExitStatus(i32),
    /// `history`: print the history.
    History,
    /// Any other command: run the program.
    External,
}

/// The status that `exit` is given: its first argument read as an `i32`, or 0
/// where it has none or it is not one.
pub open spec fn exit_status(c: CmdModel) -> i32 {
    if c.args.len() == 0 {
        0
    } else {
        match parse_i32_spec(c.args[0]) {
            Some(v) => v,
            None => 0,
        }
    }
}

/// What running the command `c` amounts to, where `c` is the command as given and
/// `is_piped` says whether it stands in a pipe.
pub open spec fn builtin_of<'a>(c: Cmd<'a>, is_piped: bool) -> Builtin<'a> {
    if c.binary@ == "cd"@ {
        if c.args@.len() == 0 {
            Builtin::CdNowhere
        } else {
            Builtin::Cd(c.args@[0])
        }
    } else if c.binary@ == "pwd"@ {
        Builtin::Pwd
    } else if c.binary@ == "exit"@ {
        if is_piped {
            Builtin::ExitStatus(exit_status(c@))
        } else {
            Builtin::Exit(exit_status(c@))
        }
    } else if c.binary@ == "history"@ {
        Builtin::History
    } else {
        Builtin::External
    }
}

/// Whether `a` and `b` hold the same text.
pub fn same_text(a: &str, b: &str) -> (r: bool)
    ensures
        r == (a@ == b@),
{
    let x = chars_of(a);
    let y = chars_of(b);
    if x.len() != y.len() {
        return false;
    }
    let mut i: usize = 0;
    while i < x.len()
        invariant
            x@ == a@,
            y@ == b@,
            x.len() == y.len(),
            i <= x.len(),
            forall|k: int| 0 <= k < i ==> x@[k] == y@[k],
        decreases x.len() - i,
    {
        if x[i] != y[i] {
            return false;
        }
        i = i + 1;
    }
    proof {
        assert(x@ =~= y@);
    }
    true
}

/// What `pwd` prints for the working directory `path`: the path and a newline.
pub fn pwd_line(path: &str) -> (r: String)
    ensures
        r@ == path@ + seq!['\n'],
{
    let mut r = String::from_str(path);
    r.append("\n");
    proof {
        reveal_strlit("\n");
    }
    r
}

/// Whether `line`, read while collecting a heredoc, is its delimiter: the line
/// without surrounding whitespace is exactly `delimiter`.
pub fn ends_heredoc(line: &str, delimiter: &str) -> (r: bool)
    ensures
        r == (trimmed(line@) == delimiter@),
{
    same_text(trim(line), delimiter)
}

impl<'a> Cmd<'a> {
    /// What running this command amounts to: a built-in (`cd`, `pwd`, `exit`,
    /// `history`) or a program.
    pub fn builtin(&self, is_piped: bool) -> (b: Builtin<'a>)
        ensures
            b == builtin_of(*self, is_piped),
    {
        if same_text(self.binary, "cd") {
            if self.args.len() == 0 {
                Builtin::CdNowhere
            } else {
                Builtin::Cd(self.args[0])
            }
        } else if same_text(self.binary, "pwd") {
            Builtin::Pwd
        } else if same_text(self.binary, "exit") {
            let status = if self.args.len() == 0 {
                0
            } else {
                match parse_i32(self.args[0]) {
                    Some(v) => v,
                    None => 0,
                }
            };
            if is_piped {
                Builtin::ExitStatus(status)
            } else {
                Builtin::Exit(status)
            }
        } else if same_text(self.binary, "history") {
            Builtin::History
        } else {
            Builtin::External
        }
    }
}

} // verus!

verus! {

/// The built-ins are recognised by their name alone: `pwd` and `history` whatever
/// their arguments and wherever they stand; `cd` goes to its first argument, or
/// nowhere without one; `exit` leaves the shell, or in a pipe only reports its
/// status, 0 when it has no argument; any other name is a program to run.
pub proof fn lemma_builtins_by_name<'a>(c: Cmd<'a>, is_piped: bool)
    ensures
        c.binary@ == "pwd"@ ==> builtin_of(c, is_piped) == Builtin::Pwd,
        c.binary@ == "history"@ ==> builtin_of(c, is_piped) == Builtin::History,
        c.binary@ == "cd"@ && c.args@.len() > 0 ==> builtin_of(c, is_piped) == Builtin::Cd(
            c.args@[0],
        ),
        c.binary@ == "cd"@ && c.args@.len() == 0 ==> builtin_of(c, is_piped) == Builtin::CdNowhere,
        c.binary@ == "exit"@ && is_piped ==> builtin_of(c, is_piped) == Builtin::ExitStatus(
            exit_status(c@),
        ),
        c.binary@ == "exit"@ && !is_piped ==> builtin_of(c, is_piped) == Builtin::Exit(
            exit_status(c@),
        ),
        c.binary@ == "exit"@ && c.args@.len() == 0 ==> exit_status(c@) == 0,
        c.binary@ != "cd"@ && c.binary@ != "pwd"@ && c.binary@ != "exit"@ && c.binary@
            != "history"@ ==> builtin_of(c, is_piped) == Builtin::External,
{
    reveal_strlit("cd");
    reveal_strlit("pwd");
    reveal_strlit("exit");
    reveal_strlit("history");
    assert("cd"@[0] != "pwd"@[0]);
    assert("cd"@[0] != "exit"@[0]);
    assert("cd"@[0] != "history"@[0]);
    assert("pwd"@[0] != "exit"@[0]);
    assert("pwd"@[0] != "history"@[0]);
    assert("exit"@[0] != "history"@[0]);
}

} // verus!
