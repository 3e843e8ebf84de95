# mit_lint

Lints for git commit messages, with their behaviour stated in Verus
contracts and proved.

- `src/` is the verified library.
  - `commit.rs` splits a commit message into the parts the lints read
    (subject, body, trailers, comment character, scissors section), using
    the `mit-commit` crate.
  - `text.rs` models text as sequences of characters, with the UTF-8 byte
    counts the lints report positions in.
  - `checks/` holds one module per lint: when it reports a problem, and the
    title, advice, code, labels and link of that problem.
  - `model/` holds the error codes, the `Lint` enum, collections of lints
    (`Lints`, kept in declaration order) and `Problem`.
  - `cmd.rs` runs a collection of lints over a commit message.
- `app/` holds what depends on other crates' traits: `miette` diagnostics for
  problems, `thiserror` errors, and `serde` support for regular expressions.
- `tests/` holds the tests.
