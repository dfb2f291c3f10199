# tesse_rs

The core of a small terminal emulator, verified with Verus.

- `src/cursor.rs`: a cursor that every operation keeps inside its area.
- `src/screen.rs`: a grid of character cells with writing, clearing,
  scrolling and resizing (padding or rewrapping lines).
- `src/performer.rs`: applies printed characters, C0 controls (LF, CR, FF)
  and the CSI sequences `H`/`f`, `A`, `B` and `J` to a screen and a cursor.
- `src/input.rs`: what a key press sends to the shell, or whether it quits.
- `app/main.rs`: a terminal window that runs `bash` in a pseudo-terminal,
  parses its output with `vte` and draws the screen with `ratatui`.
