# write_a_shell

A small interactive shell. The library under `src/` holds the parts that are
proved with Verus:

- `text`: whitespace, words of a line, pieces between separators, trimming.
- `parsing`: `Parser`, `Cmd`, `Element`, `parse_multiple`; `parsing::properties`
  proves what every parsed chain looks like.
- `number`: reading an `i32` the way `str::parse` does (for `exit`).
- `execution`: the built-ins (`cd`, `exit`, `history`) and what a command
  amounts to, `pwd`'s output line and the end of a heredoc; `execution::elements`
  is the step function that decides, element by element, which files and pipes a
  command uses (a command reads the pipe made for an earlier command's output,
  never its own) and when a chain stops; `execution::properties` proves this and
  that every run ends.

`app/` is the program around it: reading lines, the history file, opening files
and pipes, starting processes and waiting for them.
