# lingo

The verified core of a pop-up translator: select text anywhere, press a
shortcut, and a small popup shows the translation, dictionary alternatives and
definitions.

- `src/` is the library, checked by Verus. It holds language-code
  normalization, reading the Google and DeepL responses, the dictionary
  heuristic and alternative trimming, request and status handling, the
  configuration rules (defaults, validation, patching, update planning),
  the popup session state and the popup placement arithmetic.
- `app/` is the desktop program around it: windows, tray, global shortcut,
  clipboard, the settings store, HTTP transport and serialization.
- `tests/` exercises the library.

Dictionary scores travel through the library in fixed point (billionths);
the program converts them to and from floating point at its edge.
