# runote

The library behind RuNote, a small sticky-note editor. `src/` is verified
with Verus; `app/` is the egui window around it (files, clipboard, drawing).

- `text`: trimming, the first line of a note, truncation with an ellipsis,
  substring search.
- `clock`: the system and monotonic clocks (trusted, no contracts).
- `datetime`: calendar dates of timestamps (proved against the day count of
  the proleptic Gregorian calendar), the "time of day / date" and "time ago"
  texts.
- `note`: notes, their identifiers, lookup and removal.
- `icon`: decoding the application icon into RGBA pixels (through `image`;
  trusted, no contract).
- `listing`: search matching and the order of the note list.
- `editing`: copy, cut, paste and select-all on character positions, and which
  selection is remembered, restored and pasted over.
- `state`: the editor's state: changes, saves, auto-save timing, new notes,
  deletion and its confirmation.
