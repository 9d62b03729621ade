# rit

An interactive terminal viewer of git logs and diffs. What the viewer shows and
does is a library whose behaviour is stated in contracts and proved by Verus; a
thin program around it reads the repository, the keyboard and the mouse, and draws.

## Layout

- `src/model.rs`, `src/text.rs`: ids, commits, diffs and texts.
- `src/git/`: what is made of a repository's contents. The history walk and its
  path filter (`walk`), the commit graph (`graph`), line diffs and their rendering
  (`hunks`, `diff`), commit headers (`commit`), the working tree (`status`), refs,
  blame, the cache of tree diffs, and the decisions of the worker (`worker`).
- `src/app/`: the viewer as a state machine. `AppModel` is its mathematical model;
  each key, mouse event and message has a function on models that says what it
  does (`input`, `mouse`, `messages`), and `sound` states what holds at all times.
- `src/ui/`: the lines and bars that are drawn, as styled text, and where they lie.
- `app/`: the program: the terminal, the threads, and everything that reads files.
- `tests/`: the library on concrete values.

Public functions named `law_...` are proofs of what relates several functions.

Functions that call another crate, or a function of the standard library without
a specification, are marked `external_body` or `assume_specification`; the comment
above each says what is taken for granted of it.
