# tuicr

The verified core of a terminal tool for reviewing code changes. Everything under `src/` is written
in [Verus](https://github.com/verus-lang/verus): each function states what it returns, and Verus
proves it.

| Module | What it holds |
| --- | --- |
| `model`, `error` | Files, hunks, lines and their colouring; errors. |
| `text`, `words`, `decimal`, `paths` | Character sequences, white space, numerals and path components. |
| `diff_parser`, `git_patch` | Unified diffs and git's file patches. |
| `whitespace` | The automatic white-space policy, which selects between two variants of a diff. |
| `syntax`, `full_file` | Colouring of hunks on their own and from whole files. |
| `loader`, `contents`, `batch`, `record` | What is loaded from outside, with a record of every call: variants of a diff, contents of files, batches of contents. |
| `vcs`, `backend`, `git`, `git_backend` | Paths to fetch, context lines, revision strings, git commands and the choice of a backend. |
| `coloring` | The window around the viewport and the hunks that are coloured in it. |
| `layout` | What a frame shows, and where. |
| `diff_laws`, `coloring_laws` | Properties that relate several functions. Others stand next to the functions they are about, under names that begin with `law_`. |

A few things come from outside and are handed to the library as functions: a grammar that
highlights lines, a hash of hunks, a way to run git, and the backends themselves. Contracts then
speak of whatever these functions give back, and of which calls are made, in which order.

Areas are divided by [ratatui](https://crates.io/crates/ratatui). The three wrappers at the top of
`layout`, and the specification of `String::push` in `text`, are the only claims that are not
proved.

`app/` draws frames, runs git, reads files and highlights on several threads. `tests/` runs the
library.
