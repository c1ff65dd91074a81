# minishell

A small interactive shell. Command lines are read from a raw terminal with
simple line editing, split into words and the operators `|` (pipe) and `>`
(redirect into a file), and run: `cd` and `pwd` are built in, everything else
is started as a program. `q` leaves the shell.

- `src/` is the library, verified with Verus: the lexer and grammar of
  command lines (`parser`), the built-in commands (`buildin`), the plan that
  runs an expression (`interpreter`), the decision for a line (`executor`),
  the report after a line (`shell`), the line editor (`io`), exit codes
  (`subprocess`).
- `app/` is the program around it: the terminal, the environment, pipes,
  files and processes, and the shell's loop.
- `tests/` holds the tests of the library.
