# llmpk

A terminal browser for LLM and coding-agent leaderboards, whose core is
verified with Verus.

- `src/` is the verified library: the boards and their rows, the merging of
  duplicate model records and of the models leaderboard, sorting with
  missing metrics last, per-board filters and their cache, the interactive
  state machine (selection, views, sorts, filters), key and mouse commands,
  the responsive column sets, the labels of the screen, filter highlighting,
  provider colours and the OSC 52 clipboard sequence. `src/laws.rs` (and
  `law_` functions beside their subjects) state the properties kept across
  operations.
- `app/` is the terminal program around it: terminal setup, the event loop
  that carries out the library's effects (fetch threads, clipboard writes),
  drawing with ratatui, and the number formatting that needs floats.
- `tests/` runs the library on concrete values.

The program carries no HTTP client and no readers of the sites' pages, so
as built every board shows an error banner in place of rows; the library
takes the parsed records from whatever reader hands them over.
