# cp_eras_ui

The verified core of a UI toolkit for four interface eras, and the
program around it.

- `src/` is checked by Verus. `greetd/` reads and writes the JSON of
  the greetd protocol and decides each step of a login conversation;
  `motion.rs` is the process clock's arithmetic and the flag that pins
  it; `bar.rs` holds the status bar's labels and the tray menu's tree
  walk; `glyphs.rs` counts the cells of the dashboard's code glyphs;
  `text.rs` writes numbers and clips labels. The public `law_*` proof
  functions state what holds across calls.
- `app/` is ordinary Rust: the greetd socket, the one process clock,
  and the menu's pixel arithmetic.
- `tests/` runs the library on concrete values.
