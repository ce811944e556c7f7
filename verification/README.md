# qreview

The logic of a local code review tool for a Git series, with the Gerrit
model of patch sets, written in Verus: the functions of the library state
what they do in `requires` / `ensures`, and Verus proves it. Where a result
comes from another crate and depends on state that crate keeps to itself
(the grammar engine's parser, the system's randomness and clock), the
contract says what the library makes of whatever came back.

- `src/` is the library. Each module holds the logic of one part of the
  tool and the laws it keeps, stated as public proof functions named
  `law_…`: how the series is walked and where it stops (`series`), the
  diff and its word marks (`diff`), the commit message as a file
  (`commitmsg`), patch sets and their numbering (`patchset`), comments and
  where they sit again after a rebase (`comments`, `anchor`), the text of
  an export (`export`), the configuration layers (`config`), the store
  keys (`store`), the token guard (`auth`), the release texts (`release`),
  the syntax classes of a file and the cache of highlighted blobs
  (`highlight`),
  and the decisions a run makes on what git and the store answered
  (`session`, `reflog`).
- `app/` is the command line around it: it parses the arguments, reads the
  configuration and comment files, runs git and ssh, and prints what the
  library makes of their answers.
- `tests/` runs the library on concrete values.

Calls into other crates (`similar`, `sha2`, `hex`, `getrandom`, `time`,
`serde_json`, `syntect` and `two-face`) go through a few small functions marked
`#[verifier::external_body]`, each with a doc comment that says what its
contract claims of the call.
