# bm_keyboard

A romaja keyboard overlay: romanised Korean typed on a Latin keyboard is
shown in an input window, and the Hangul jamo it reads as are shown in a
window above it.

- `src/` is the library, verified with Verus: the canonical romaja table
  and its longest-prefix matching (`token`), the conversion, the input and
  synthesizer text state and the character scanner (`agent`), the ranked
  variant scanner (`char_demo`), syllable composition (`hangul`), the key
  decisions of the listeners (`listener`, `macos_key_tap`) and string
  helpers (`text`).
- `app/` is the program around it: the iced windows, window sizing (floating
  point), the global key listeners and the macOS event tap. `app char-demo`
  prints the scanner demo.
- `tests/` runs the library on concrete inputs.
