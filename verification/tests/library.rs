use write_a_shell::execution::elements::{
    is_piped_at, piped_commands, step, Action, Event, ExecState, Stage, Stdin, Stdout,
};
use write_a_shell::execution::{ends_heredoc, same_text, Builtin, Cd, Exit, History};
use write_a_shell::number::parse_i32;
use write_a_shell::parsing::{parse_multiple, Cmd, Element, Parser};
use write_a_shell::text::{chars_of, is_space_char, split_pieces, split_words};

fn cmd<'a>(binary: &'a str, args: Vec<&'a str>) -> Element<'a> {
    Element::ElementCmd(Cmd { binary, args, redirect_target: None })
}

#[test]
fn words_are_split_at_any_whitespace() {
    assert_eq!(split_words("  a\tb  c\n"), vec!["a", "b", "c"]);
    assert_eq!(split_words("x\u{3000}y\u{a0}z"), vec!["x", "y", "z"]);
    assert_eq!(split_words(""), Vec::<&str>::new());
    assert_eq!(split_words(" \t "), Vec::<&str>::new());
    assert_eq!(split_words("héllo wörld"), vec!["héllo", "wörld"]);
}

#[test]
fn space_chars_follow_char_is_whitespace() {
    for c in ['\t', '\n', '\u{b}', '\u{c}', '\r', ' ', '\u{85}', '\u{a0}', '\u{1680}', '\u{2000}',
        '\u{200a}', '\u{2028}', '\u{2029}', '\u{202f}', '\u{205f}', '\u{3000}', 'a', '\u{200b}',
        '\u{8}', '\u{e}', '\u{1f}', '\u{feff}']
    {
        assert_eq!(is_space_char(c), c.is_whitespace(), "{:?}", c);
    }
}

#[test]
fn chars_of_keeps_every_char() {
    assert_eq!(chars_of("aé€"), vec!['a', 'é', '€']);
}

#[test]
fn pieces_keep_empty_pieces() {
    assert_eq!(split_pieces("a;;b", ';'), vec!["a", "", "b"]);
    assert_eq!(split_pieces("", ';'), vec![""]);
    assert_eq!(split_pieces(";", ';'), vec!["", ""]);
    assert_eq!(split_pieces("ls -l", ';'), vec!["ls -l"]);
}

#[test]
fn empty_pieces_give_no_chain() {
    assert_eq!(parse_multiple(" ; ;"), Vec::<Vec<Element>>::new());
    assert_eq!(
        parse_multiple("ls;;pwd"),
        vec![vec![cmd("ls", vec![])], vec![cmd("pwd", vec![])]]
    );
}

#[test]
fn control_words_stand_alone() {
    assert_eq!(
        Parser::new("&& || |").parse(),
        Some(vec![Element::And, Element::Or, Element::Pipe])
    );
}

#[test]
fn redirect_without_file_is_an_argument() {
    assert_eq!(Parser::new("a >").parse(), Some(vec![cmd("a", vec![">"])]));
    assert_eq!(
        Parser::new("echo > | wc").parse(),
        Some(vec![cmd("echo", vec![">"]), Element::Pipe, cmd("wc", vec![])])
    );
    assert_eq!(
        Parser::new("echo > > f").parse(),
        Some(vec![Element::ElementCmd(Cmd {
            binary: "echo",
            args: vec![">"],
            redirect_target: Some("f"),
        })])
    );
    assert_eq!(
        Parser::new("ls | echo a >").parse(),
        Some(vec![cmd("ls", vec![]), Element::Pipe, cmd("echo", vec!["a", ">"])])
    );
    assert_eq!(parse_multiple("a >"), vec![vec![cmd("a", vec![">"])]]);
}

#[test]
fn only_blank_lines_give_nothing() {
    assert_eq!(Parser::new("").parse(), None);
    assert_eq!(Parser::new(" \t\u{3000}").parse(), None);
    assert_eq!(parse_multiple(" ;\t; "), Vec::<Vec<Element>>::new());
    assert_eq!(parse_multiple(";x;").len(), 1);
}

#[test]
fn last_redirect_wins_and_arguments_continue() {
    assert_eq!(
        Parser::new("echo a > f b > g").parse(),
        Some(vec![Element::ElementCmd(Cmd {
            binary: "echo",
            args: vec!["a", "b"],
            redirect_target: Some("g"),
        })])
    );
}

#[test]
fn a_command_name_can_be_anything_but_a_control_word() {
    assert_eq!(Parser::new("> out").parse(), Some(vec![cmd(">", vec!["out"])]));
}

#[test]
fn semicolon_separates_chains() {
    let a = parse_multiple("ls | wc");
    let b = parse_multiple("echo x && pwd");
    let mut both = a.clone();
    both.extend(b.clone());
    assert_eq!(parse_multiple("ls | wc;echo x && pwd"), both);
    assert_eq!(both.len(), 2);
}

#[test]
fn surrounding_space_changes_nothing() {
    assert_eq!(parse_multiple("  ls -l \t"), parse_multiple("ls -l"));
    assert_eq!(Parser::new(" \u{3000}cat x ").parse(), Parser::new("cat x").parse());
}

#[test]
fn commands_never_follow_each_other() {
    let chains = parse_multiple("a b | c d && e; f || g | h");
    for chain in &chains {
        assert!(!chain.is_empty());
        for w in chain.windows(2) {
            assert!(!(matches!(w[0], Element::ElementCmd(_)) && matches!(w[1], Element::ElementCmd(_))));
        }
    }
}

#[test]
fn integers_are_read_like_str_parse() {
    for s in ["42", "-7", "+5", "", "-", "+", "12a", "2147483647", "2147483648", "-2147483648",
        "-2147483649", "99999999999999", " 1", "007", "-0", "+-1", "1_0", "١"]
    {
        assert_eq!(parse_i32(s), s.parse::<i32>().ok(), "{:?}", s);
    }
    assert_eq!(parse_i32("-2147483648"), Some(i32::MIN));
    assert_eq!(parse_i32("12"), Some(12));
}

#[test]
fn builtins_are_recognised() {
    let c = Cmd { binary: "cd", args: vec![], redirect_target: None };
    assert_eq!(c.builtin(false), Builtin::CdNowhere);
    let c = Cmd { binary: "cd", args: vec!["/tmp", "x"], redirect_target: None };
    assert_eq!(c.builtin(false), Builtin::Cd("/tmp"));
    let c = Cmd { binary: "pwd", args: vec![], redirect_target: None };
    assert_eq!(c.builtin(true), Builtin::Pwd);
    let c = Cmd { binary: "history", args: vec![], redirect_target: None };
    assert_eq!(c.builtin(false), Builtin::History);
    let c = Cmd { binary: "cdx", args: vec![], redirect_target: None };
    assert_eq!(c.builtin(false), Builtin::External);
    let c = Cmd { binary: "ls", args: vec!["-l"], redirect_target: None };
    assert_eq!(c.builtin(true), Builtin::External);
}

#[test]
fn exit_status_comes_from_first_argument() {
    let c = Cmd { binary: "exit", args: vec!["3"], redirect_target: None };
    assert_eq!(c.builtin(true), Builtin::ExitStatus(3));
    assert_eq!(c.builtin(false), Builtin::Exit(3));
    let c = Cmd { binary: "exit", args: vec!["abc"], redirect_target: None };
    assert_eq!(c.builtin(false), Builtin::Exit(0));
    let c = Cmd { binary: "exit", args: vec![], redirect_target: None };
    assert_eq!(c.builtin(false), Builtin::Exit(0));
    let c = Cmd { binary: "exit", args: vec!["-2", "9"], redirect_target: None };
    assert_eq!(c.builtin(true), Builtin::ExitStatus(-2));
}

#[test]
fn builtin_values_keep_what_they_are_given() {
    assert_eq!(Cd::new("/tmp".to_string()).dir(), "/tmp");
    assert_eq!(Exit::new(7).status(), 7);
    assert_eq!(History::new("h.txt".to_string()).path(), "h.txt");
    assert_eq!(History::from_setting(None).path(), ".history");
    assert_eq!(History::from_setting(Some("/x/y".to_string())).path(), "/x/y");
}

#[test]
fn same_text_compares_contents() {
    assert!(same_text("cd", "cd"));
    assert!(!same_text("cd", "cdx"));
    assert!(!same_text("cd", "ce"));
    assert!(same_text("", ""));
}

#[test]
fn piped_commands_are_counted() {
    let es = Parser::new("a | b | c && d").parse().unwrap();
    assert_eq!(piped_commands(&es), 3);
    assert!(is_piped_at(&es, 0));
    assert!(is_piped_at(&es, 4));
    assert!(!is_piped_at(&es, 6));
    let es = Parser::new("a && b").parse().unwrap();
    assert_eq!(piped_commands(&es), 0);
}

/// Runs the chain, answering every request with `answer`, and returns the actions.
fn drive<'a>(es: &Vec<Element<'a>>, answer: &dyn Fn(&Action<'a>) -> Event) -> Vec<Action<'a>> {
    let total = piped_commands(es);
    let (mut s, mut a) = step(es, total, ExecState::start(), Event::Succeeded);
    let mut out = vec![a];
    let mut n = 0;
    while !matches!(a, Action::Finish | Action::Abort) {
        let ev = answer(&a);
        let (s2, a2) = step(es, total, s, ev);
        s = s2;
        a = a2;
        out.push(a);
        n += 1;
        assert!(n < 100);
    }
    assert_eq!(s.stage, Stage::Done);
    out
}

#[test]
fn a_pipeline_is_connected() {
    let es = Parser::new("ls | wc -l").parse().unwrap();
    let actions = drive(&es, &|a| match a {
        Action::AwaitLast => Event::Status(Some(true)),
        _ => Event::Succeeded,
    });
    assert_eq!(
        actions,
        vec![
            Action::MakePipe,
            Action::Run { idx: 0, stdin: Stdin::Inherit, stdout: Stdout::Pipe, is_piped: true },
            Action::Run { idx: 2, stdin: Stdin::Pipe(0), stdout: Stdout::Inherit, is_piped: true },
            Action::Finish,
        ]
    );
}

#[test]
fn a_trailing_pipe_makes_no_pipe() {
    let es = Parser::new("ls |").parse().unwrap();
    let actions = drive(&es, &|_| Event::Succeeded);
    assert_eq!(
        actions,
        vec![
            Action::Run { idx: 0, stdin: Stdin::Inherit, stdout: Stdout::Inherit, is_piped: true },
            Action::Finish,
        ]
    );
}

#[test]
fn a_failed_pipe_leaves_the_output_alone() {
    let es = Parser::new("a | b").parse().unwrap();
    let actions = drive(&es, &|a| match a {
        Action::MakePipe => Event::Failed,
        _ => Event::Succeeded,
    });
    assert_eq!(
        actions[1],
        Action::Run { idx: 0, stdin: Stdin::Inherit, stdout: Stdout::Inherit, is_piped: true }
    );
    // No pipe was made, so the next command reads the shell's input.
    assert_eq!(
        actions[2],
        Action::Run { idx: 2, stdin: Stdin::Inherit, stdout: Stdout::Inherit, is_piped: true }
    );
}

#[test]
fn each_command_reads_the_pipe_before_it() {
    let es = Parser::new("a | b | c").parse().unwrap();
    let actions = drive(&es, &|_| Event::Succeeded);
    assert_eq!(
        actions,
        vec![
            Action::MakePipe,
            Action::Run { idx: 0, stdin: Stdin::Inherit, stdout: Stdout::Pipe, is_piped: true },
            Action::MakePipe,
            Action::Run { idx: 2, stdin: Stdin::Pipe(0), stdout: Stdout::Pipe, is_piped: true },
            Action::Run { idx: 4, stdin: Stdin::Pipe(2), stdout: Stdout::Inherit, is_piped: true },
            Action::Finish,
        ]
    );
}

#[test]
fn a_skipped_command_still_uses_up_the_pipe() {
    // `b` takes the pipe from `a`, then cannot write its file and is passed over;
    // `c` then finds no pipe waiting.
    let es = vec![
        cmd("a", vec![]),
        Element::Pipe,
        Element::ElementCmd(Cmd { binary: "b", args: vec![], redirect_target: Some("f") }),
        Element::Pipe,
        cmd("c", vec![]),
    ];
    let actions = drive(&es, &|a| match a {
        Action::CreateOutput(_) => Event::Failed,
        _ => Event::Succeeded,
    });
    assert_eq!(
        actions,
        vec![
            Action::MakePipe,
            Action::Run { idx: 0, stdin: Stdin::Inherit, stdout: Stdout::Pipe, is_piped: true },
            Action::CreateOutput("f"),
            Action::Run { idx: 4, stdin: Stdin::Inherit, stdout: Stdout::Inherit, is_piped: true },
            Action::Finish,
        ]
    );
}

#[test]
fn and_stops_after_a_failure() {
    let es = Parser::new("false && echo x").parse().unwrap();
    let fail = drive(&es, &|a| match a {
        Action::AwaitLast => Event::Status(Some(false)),
        _ => Event::Succeeded,
    });
    assert_eq!(
        fail,
        vec![
            Action::Run { idx: 0, stdin: Stdin::Inherit, stdout: Stdout::Inherit, is_piped: false },
            Action::AwaitLast,
            Action::Finish,
        ]
    );
    let pass = drive(&es, &|a| match a {
        Action::AwaitLast => Event::Status(Some(true)),
        _ => Event::Succeeded,
    });
    assert_eq!(pass.len(), 4);
    assert_eq!(
        pass[2],
        Action::Run { idx: 2, stdin: Stdin::Inherit, stdout: Stdout::Inherit, is_piped: false }
    );
    let none = drive(&es, &|a| match a {
        Action::AwaitLast => Event::Status(None),
        _ => Event::Succeeded,
    });
    assert_eq!(none.last(), Some(&Action::Abort));
}

#[test]
fn or_stops_after_a_failure_too() {
    let es = Parser::new("false || echo x").parse().unwrap();
    let fail = drive(&es, &|a| match a {
        Action::AwaitLast => Event::Status(Some(false)),
        _ => Event::Succeeded,
    });
    assert_eq!(fail.last(), Some(&Action::Finish));
    assert_eq!(fail.len(), 3);
}

#[test]
fn output_goes_to_the_named_file() {
    let es = Parser::new("echo hello > outfile").parse().unwrap();
    let ok = drive(&es, &|_| Event::Succeeded);
    assert_eq!(
        ok,
        vec![
            Action::CreateOutput("outfile"),
            Action::Run { idx: 0, stdin: Stdin::Inherit, stdout: Stdout::File, is_piped: false },
            Action::Finish,
        ]
    );
    let failed = drive(&es, &|_| Event::Failed);
    assert_eq!(failed, vec![Action::CreateOutput("outfile"), Action::Finish]);
}

#[test]
fn redirect_elements_are_honoured() {
    let es = vec![Element::RedirectIn("in"), cmd("cat", vec![]), Element::RedirectAppend("log")];
    let ok = drive(&es, &|_| Event::Succeeded);
    assert_eq!(
        ok,
        vec![
            Action::OpenInput("in"),
            Action::AppendOutput("log"),
            Action::Run { idx: 1, stdin: Stdin::File, stdout: Stdout::File, is_piped: false },
            Action::Finish,
        ]
    );
    // An input before the command that does not open is passed over.
    let no_input = drive(&es, &|a| match a {
        Action::OpenInput(_) => Event::Failed,
        _ => Event::Succeeded,
    });
    assert_eq!(
        no_input[2],
        Action::Run { idx: 1, stdin: Stdin::Inherit, stdout: Stdout::File, is_piped: false }
    );
    // An input after the command that does not open skips the command.
    let es = vec![cmd("cat", vec![]), Element::RedirectIn("missing")];
    let skipped = drive(&es, &|_| Event::Failed);
    assert_eq!(skipped, vec![Action::OpenInput("missing"), Action::Finish]);
    // A heredoc after the command feeds it.
    let es = vec![cmd("cat", vec![]), Element::Heredoc("EOF", "text".to_string()), Element::RedirectOut("o")];
    let fed = drive(&es, &|_| Event::Succeeded);
    assert_eq!(
        fed,
        vec![
            Action::Run { idx: 0, stdin: Stdin::Heredoc(1), stdout: Stdout::Inherit, is_piped: false },
            Action::Finish,
        ]
    );
}

#[test]
fn an_empty_chain_finishes_at_once() {
    let es: Vec<Element> = vec![];
    assert_eq!(drive(&es, &|_| Event::Succeeded), vec![Action::Finish]);
}

#[test]
fn trim_matches_str_trim() {
    for s in ["", "  ", " a b ", "\tx\n", "\u{3000}y", "z\u{a0}", "abc"] {
        assert_eq!(write_a_shell::text::trim(s), s.trim(), "{:?}", s);
    }
}

#[test]
fn pwd_prints_the_path_and_a_newline() {
    assert_eq!(write_a_shell::execution::pwd_line("/home/u"), "/home/u\n");
    assert_eq!(write_a_shell::execution::pwd_line(""), "\n");
}

#[test]
fn heredoc_ends_at_its_delimiter() {
    assert!(ends_heredoc("EOF\n", "EOF"));
    assert!(ends_heredoc("  EOF  ", "EOF"));
    assert!(!ends_heredoc("EOFX\n", "EOF"));
    assert!(!ends_heredoc("text\n", "EOF"));
}
