# cfuq

The lexing stage of a compiler for `.cfuq` sources, written in Rust and verified with Verus.

- `src/` is the library. `text`, `numbers`, `graphemes`, `position` and `reader` are what lexing
  is made of; `literal`, `word`, `line`, `macros` and `lexer` turn the lines of a file into tokens,
  macros, requests for other modules and errors; `path`, `part` and `context` keep the modules of a
  program and the queue of those that wait to be lexed; `worker` and `pool` hold the decisions of
  the workers and of the scheduler that feeds them; `compiler` starts a compilation and shows what
  went wrong. `laws` and `reading` state what holds of every file and of every spelling.
- `app/` is the program around it: files, threads and channels.
- `tests/` runs the library.

Columns and sizes are counted in extended grapheme clusters, which come from the
`unicode-segmentation` crate. Paths are those of Unix.

A text that the lexer cannot get on with has no result: `None`, or `false`, where one is due. In
code that is so behind a `$` only: the `$` does not count to the size of a word, so that the text
may have to go on inside a character (`$` and a name that is not ASCII before an operator), or does
not get shorter (`$` right before an operator). In a macro definition it is also so where the
six bytes to be left out before its name are not there, or end inside a character.
