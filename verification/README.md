# console_panel

A panel is tabs across the top of a card and, under them, only what the tab in
front is about. This crate is what a panel decides, proved with Verus: which
rows a card holds and where the highlight stands on them, what a key or a
finger does, where every part a hand can land on is placed, what is written in
the files and on the sockets panels share, and which panel may hold the screen.

## Layout

- `src/` is the verified library. Every public function states what it
  returns in `ensures`, over spec functions on `Seq`, `int` and the views of
  the library's types; the `lemma_` proof functions state what holds across
  calls (what is written is read back, a step lands on a row or stays, the
  parts of a strip stand in order inside it).
  - `page`, `strip`, `fitting`, `shape`, `keys`, `marks`, `icons`, `card`:
    rows, tabs and how much fits on a card.
  - `surface`: where the highlight stands and what each key does to it, and
    where each row, tab, button, cell, bar and answer is placed on a card.
  - `picker`, `chooser`, `handoff`, `held`, `left_open`, `frames`, `telling`:
    what the lock files, the host's socket, the wake-up bytes and the written
    account of a drawn card say, and what is done about each; and the one
    picture a card is looking at, as the loop and its decoders hand it on.
  - `notes`, `tab`, `room`, `before`, `whose`, `opening`: what a panel
    remembers between openings, and where it is kept.
  - `pictures`: the store of small pictures, written and read back.
  - `text`, `decimal`, `measure`: characters, numbers and sums held in the
    integers they are drawn with.
- `app/` is the program around the library: the environment, the locks
  between processes, files, sockets, signals, threads and the programs a
  panel starts, and the zoom of a picture, which is floating point.
- `tests/` runs the library on concrete values.
