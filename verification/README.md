# loopers

A live looper. The library in `src/` holds the rules of the program, verified with
Verus; `app/` connects them with the JACK audio server, the files and the display.

- `api`, `looper`, `action`, `period`: the vocabulary of the engine, and what it
  asks of the parts around it.
- `model`, `engine`: the engine as a mathematical object, and the engine itself.
- `trigger`, `schedule`: commands that wait, and how a period of audio is cut up
  around them.
- `session`, `config`: what loading a session and reading the configuration lead to.
- `midi`, `midi_out`: MIDI events, and what is reported to MIDI devices.
- `ports`, `host`: the output ports of the loopers.
- `buffer`, `channel`: the outside functions that the library trusts.
- `note_engine`: a small engine that is played with three notes.
- `laws`: properties that relate several operations.

Floating point stays in `app/`: the library holds tempos, levels and volumes as the
bits of a float and never computes with them.
