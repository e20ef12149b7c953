# health-widget

The logic of a small desktop window: it listens to the microphone and to a call,
shows what is said, keeps calls and pictures of the screen, drives an autopilot,
shows figures and talks to an assistant.

- `src/` is the library. Everything in it is verified: parsers, texts that are
  written for other programs, state machines of captures, recognisers, calls and
  processes, and the rules of the window. Floating-point numbers come in as their
  bit patterns, and what other programs print comes in as bytes or text.
- `tests/` runs the library on concrete values, with the real outside crates.
- `app/` is the program around it: processes, files, the bus, the database, the
  camera, the browser's page and the drawing of the window.

Each module of `src/` states what it is for at its head. Spec functions are named
after the function that computes them, with `_of` behind the name; the laws of a
module stand beside the functions that they speak of, as public proof functions.
