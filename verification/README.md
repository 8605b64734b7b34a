# svar

A terminal companion that shows the lyrics of the track an MPRIS media
player is playing, synced to the playback position when LRC lyrics are
available.

- `src/` is the verified library (Verus): LRC parsing (`lrc`), the LRCLIB
  request addresses and answer handling (`lrclib`), the lyrics memory
  (`lyrics`), reading MPRIS properties and tracking the playback position
  (`mpris`, `player`), planning the lyrics pane (`view`) and the application
  state machine (`app`). Character-level text operations live in `text`.
  Times are whole microseconds.
- `app/` is the program around it: D-Bus calls (zbus), HTTP requests
  (reqwest), JSON decoding (serde) and drawing (ratatui, crossterm).
- `tests/` exercises the library on concrete values.
