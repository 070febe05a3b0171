# shell

A small interactive command shell. The library (`src/`) holds its logic with
Verus contracts and proofs; `app/main.rs` is the program around it (line
editing, processes, pipes, files, `waitpid`).

- `tokenizer`: splitting a line into pipeline segments and words (quotes,
  backslashes, `|`, `$name` and `${name}`), with laws in `tokenizer_laws`.
- `commands`: builtin names, search-path lookup, `type`, redirection parsing,
  and the plan of a single command or a pipeline.
- `builtins`: `echo`, `complete`, `declare`, and what `cd`, `pwd`, `type`,
  `jobs` and `exit` ask of the program; laws in `builtins_laws`.
- `jobs`: the job table (ids, current and previous job, listings, reaping);
  laws in `jobs_laws`.
- `completion`: which word tab completion works on and what completes it.
- `history`: the `history` builtin's decisions and the line loop's first step.
- `strmap`, `text`, `words`: string maps, string building, whitespace,
  lines and string order.
