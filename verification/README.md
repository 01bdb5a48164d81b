# A small command shell, verified

`src/` is the shell's logic, proved with Verus:

- `variables`: the variable store (a map kept in ascending order of names),
  `set_var` and the laws of assignment;
- `shell`: the stack of `if` / `else` / `fi` modes and `step_job`, which
  decides for every job whether it changes the modes or the variables, runs a
  builtin or runs an outside program;
- `commands`: the table of builtin commands and the output of `help`;
- `builtins`: the text the builtins compute (`echo`, `ls`, the prompt, exit
  codes, `sleep`, `read`);
- `line`: cutting a command line into jobs and words, with `$name` expansion;
- `to_num`, `text`, `order`: reading numbers, characters and trimming, and the
  order of strings.

`app/main.rs` is the program around it: the terminal, files, directories and
child processes.
