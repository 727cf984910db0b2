# noteholder

A multi-note sustain pad MIDI generator: a piano keyboard from C2 to C6 whose
keys latch on and off, with global velocity, MIDI channel and octave offset.

- `src/` is the verified library: `keys` (keyboard range, black keys, key
  positions in half white-key units, the MIDI note of each key, the key under
  the pointer), `names` (note names such as "C#2"), `params` (parameter values
  and ranges), `engine` (the note engine and its model `step`), and `laws`
  (what a receiver hears, settling, reset, event shape, keyboard layout).
- `app/` is the nih-plug / egui plugin shell around it.
- `tests/` runs the library on concrete inputs.
