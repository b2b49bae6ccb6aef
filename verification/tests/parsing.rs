use write_a_shell::parsing::Element::ElementCmd;
use write_a_shell::parsing::{parse_multiple, Cmd, Element};

#[test]
fn no_cmd_is_parsed_from_empty_line() {
    assert_eq!(parse_multiple(""), Vec::<Vec<Element>>::new());
}

#[test]
fn cmd_with_no_args_is_parsed() {
    assert_eq!(
        parse_multiple("ls"),
        vec![vec![ElementCmd(Cmd {
            binary: "ls",
            args: vec![],
            redirect_target: None,
        }),],]
    );
}

#[test]
fn cmd_with_args_is_parsed() {
    assert_eq!(
        parse_multiple("ls -l"),
        vec![vec![ElementCmd(Cmd {
            binary: "ls",
            args: vec!["-l"],
            redirect_target: None,
        })]]
    );
}

#[test]
fn cmds_are_parsed() {
    assert_eq!(
        parse_multiple("ls; echo hello"),
        [
            [ElementCmd(Cmd {
                binary: "ls",
                args: vec![],
                redirect_target: None,
            })],
            [ElementCmd(Cmd {
                binary: "echo",
                args: vec!["hello"],
                redirect_target: None,
            })]
        ]
    )
}

#[test]
fn pipe_is_parsed() {
    assert_eq!(
        parse_multiple("ls | wc -l"),
        vec![vec![
            ElementCmd(Cmd {
                binary: "ls",
                args: vec![],
                redirect_target: None,
            }),
            Element::Pipe,
            ElementCmd(Cmd {
                binary: "wc",
                args: vec!["-l"],
                redirect_target: None,
            }),
        ]]
    );
}
