# Rusthia

A cursor-hover rhythm game. The library (`src/`, verified with Verus) holds the
parts with rules worth proving:

- `map`: decoding of the map formats — `.sspm` (binary, versions 1 and 2),
  `.phxm` (zip archive with a binary note list), `.txt` (one line of notes) —
  stated as functions of the input bytes, with the notes put in time order by a
  stable sort; the byte reader, text rules and error messages they use.
- `game`: the scoring of hits and misses, and the record book of best results.
- `ui`: the texts of the in-game display, the grade of an attempt, the note shape
  cycle and names, and the label of the modifiers chosen before a game.
- `numtext`: decimal text of numbers.

`app/` is the game itself on Bevy and Kira: windows, rendering, audio, files,
the JSON of the metadata and of the record book, and everything computed in
floating point (cursor, hitbox, health, note motion, accuracy).
