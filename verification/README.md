# Git Integrity

The backend of a visual Git client with a file browser, as a verified library and an application around it.

- `src/` is the library. Every function in it is verified with Verus against its contract, and public proof functions named `law_...` state what holds of several functions together.
  - `text`, `pieces`, `numerals`, `text_map`: texts as sequences of characters, and a map that keeps its
    keys in order.
  - `paths`: paths as the platform reads them, and the rules that keep a path inside a folder and away from
    Git metadata.
  - `local_drive`: the file browser. Listing, copying, moving and deleting; opening and saving text in the
    encoding that a file has; comparing two folders and the guided merge between them.
  - `notes`: personal notes on the folders of a repository.
  - `repository`: branches, merges, remotes, stashes and the command boxes.
  - `build_label`: the label of a build.
- `app/` does what the library decides: it reads and writes files, runs Git, opens repositories and prints
  answers as JSON. Operations that alternate between decisions and work are machines of the library: `app/`
  looks at the next step, performs it, and hands back what happened.
- `tests/` runs the library on concrete values, with a file system in memory where one is needed.

What the library takes from outside without proof is marked `external_body` or `assume_specification`, each
with a comment that says what is claimed. How a path is split, whether it is absolute, what folder lies around it
and how two are put together is left to the platform. Contracts speak of what it said (`told_parts`,
`told_absolute`, `told_parent`, `told_joined`) and fix the answer from there; what it says is claimed only of paths
that every platform reads alike: without a backslash, a colon or two leading separators. Functions that are
handed the work to do, such as moving an item, require it to be allowed only in its order.
