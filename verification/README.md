# minishell

A small interactive Unix shell whose logic is verified with Verus.

- `src/` is the verified library:
  - `parser`: tokenizing (blanks, single and double quotes, backslashes),
    redirections (`>`, `1>`, `>>`, `1>>`, `2>`, `2>>`), background `&`, and
    pipelines joined by `|`; `parser_laws` proves properties of the parser.
  - `resolver`: the candidate paths of a command along `PATH`, and the lookup.
  - `context`: the shell's state (environment, lookup cache, builtin names,
    completion scripts, background jobs, history) and the job listings.
  - `builtins`: `cd`, `complete`, `echo`, `exit`, `history`, `jobs`, `pwd`, `type`.
  - `completer`: what tab completion offers and in which order.
  - `shell`: how a line is prepared and parsed, and where the input and output
    of each command of a pipeline go.
  - `strmap`, `order`, `text`: a string map, string order, and text helpers.
- `app/` is the program: the line editor (rustyline), processes, files and
  the terminal. It hands the library what it reads from the system (whether a
  file is executable, the outcome of changing directory, the state of a child
  process, the files the file-name completer found) and carries out what the
  library decides.
