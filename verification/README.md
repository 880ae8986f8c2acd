# shell_gui

A tabbed graphical shell. The terminal's logic is a Verus library; the window
around it is ordinary Rust.

## The library, `src/`

- `text`, `path`, `timestamp`, `types`: text as sequences of characters, paths
  as text in the style of the system, moments in time, and the plain data the
  terminal keeps.
- `ansi`: escape sequences in output, read into styled segments.
- `save_data`: the line-based file of bookmarks and recent directories.
- `state`, `filter`, `tabs`: the state with its model, the lists of matches
  behind the search boxes, and the tabs.
- `display`, `navigation`, `remote`, `commands`, `gui`: the prompt, moving
  between directories, SSH remotes, the command line, and the rows and controls
  of the window.
- `laws`: what holds of the terminal as a whole.

The state is a set of parallel vectors. Its model is a sequence of tabs, one of
them active, and every operation is stated on the model. Work that only the
system can do (entering a directory, running a program, connecting) is asked for
by the result of one function and handed back as the argument of another.

Paths are kept as the system writes them. How they divide into components
depends on the system, so the state holds the style of its paths.

## The window, `app/`

`app/` draws the window with `egui`, and asks the system and the `shell` crate
for what the library wants done.
