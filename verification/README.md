# helix_files

The logic of a file tree that stands beside a text editor, of the Jujutsu integration behind its
states and the editor's diff base, and of the file watcher that keeps them up to date. The library
is verified with Verus: each function states in its contract what it returns or changes, and the
public proof functions state what holds of several of them together.

## Layout

- `src/` is the verified library. It works on plain values only. A path is the list of its
  components; a directory that has to be read, a command that has to be run or a file that has to be
  moved is returned to the caller as a value.
- `app/` is ordinary Rust around it: it reads directories, runs `jj`, drives the native watcher,
  performs file operations and draws, through two traits that the editor implements.
- `tests/` runs the library on concrete values.

## What is shown of the tree

- The cursor is always in view, a hidden tree has no focus, and the width stays between its bounds.
- The tree leaves the editor at least twenty columns, and the two together fill the screen.
- The rows come from the directories that were read: directories first, then by name without regard
  to case. No path has two rows, and every row below the first level hangs under an expanded
  directory.
- A refresh keeps the cursor on its path, and a second refresh gives the same rows and cursor.
- The active file gets a row when it is revealed, and that row is drawn in the middle of the area.
- Operations go to the outermost of the marked paths. A paste is refused where something is at one
  of its targets already, or where a target lies inside its own source.
- A paste and a deletion end with the first failure. A deletion makes the tree dirty exactly if
  something was deleted.
- Closing a directory undoes opening it up, and toggling hidden files twice gives back the rows.
- Reports of version control that were asked for before the last refresh are refused.

## What is shown of the Jujutsu integration

- Every command ignores the working copy and is pinned to an operation. One lookup reads one
  operation throughout.
- A file has a diff base only where its change has exactly one parent; a file that the parent does
  not have has an empty one.
- A change that leads to a directory, or to a submodule where something was before, is not reported.
- A list of paths limits the query to those that lie in the repository. Only an empty list asks for
  the whole workspace.
- Each provider of metadata is asked at most once, and none after the first that succeeds.
- A listener that has asked for no more is told of nothing any more.
