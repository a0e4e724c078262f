# gamut

The logic of a Linux application launcher, verified with Verus: which desktop
entries are listed and in what order, how a query is normalised and matched,
the search session with its generations and selection, the calculator's
expression grammar and the spoken and grouped forms of numbers, keyboard
shortcuts (their text form, parsing, conflicts and dispatch), the preferences
and their editors, the theme choice and colour parsing, the names the window's
radius, size and location are shown under, and the small state machines behind
the progress line, the scrollbar and reaching the daemon.

Layout:

- `src/` — the verified library. Each module states its behaviour as
  `requires`/`ensures` over `Seq`, `Option` and spec functions; the laws that
  relate several operations are public proof functions (`lemma_*`).
- `tests/` — tests of the library on concrete values.
- `app/` — the program around it: reading desktop entries from disk, asking
  the desktop for its light or dark preference, the terminal front end, and
  the parts computed in floating point (evaluating calculations, colour
  blending, the progress sweep).
