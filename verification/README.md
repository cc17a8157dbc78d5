# lilterm

An inline terminal: a viewport that lives at the bottom of the normal screen, below the history that
the program has written, and never on an alternate screen. What leaves the viewport at its top joins
the scrollback of the terminal, in order and once.

The library is written in Verus. It decides what the terminal is told; it does not talk to it.

## Layout

`src/` is the verified library.

- `geometry`, `style`, `text`, `buffer`: cells, rectangles, colours, lines of text and grids of cells.
- `command`: what a terminal can be told, and the control sequences of scrolling.
- `diff`, `draw`: which cells have to be shown anew, and what the terminal is told for that.
- `terminal`: the viewport, what the screen is taken to show, and rows inserted above it.
- `history`: lines of text as rows of the history.
- `layout`: regions of a frame, inline ones and ones pinned to its bottom.
- `inline`: the inline viewport, with pending history and with a tail that grows out of the screen.
- `session`: terminal modes that are set and restored.
- `trace`: a log of what was decided.

The other modules hold what is proved of all that together. `display` says what a screen shows after
what it was told. `showing`, `rows` and `drawing` prove that a drawn frame is shown and that one
which is shown already tells the terminal nothing. `insertion` and `tail` prove that inserted rows
and overflowing rows join the history in order. `updates` proves that each drawing is one
synchronized update, and where nothing is cleared. `seen` proves that the screen shows the newest
rows of a tail that was drawn.

`app/` talks to the terminal: it performs the operations that the library has decided on, with
ratatui's backend and crossterm, reads the size of the screen and the cursor, sets the modes and
writes the log.

`tests/` runs the library, much of it against a terminal emulator.

## Using it

A `Terminal` keeps what it has to tell the screen. Take it with `take_output` and perform it in
order. Where an operation fails, `resume_at` says which one comes next, so that an update which has
begun is also ended.

What has to hold before a call stands in its `requires`. The tests `can_insert_above`, `can_draw`,
`can_draw_tail` and `can_finish_tail` say whether it does.
