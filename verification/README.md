# henge_desktop

The desktop shell of the henge engine: the part of the game that turns a
keyboard, a pad and a window into the five-bit words and 320x200 frames the
game itself runs on.

`src/` is the library, written and proved with Verus. Each module states what
its functions do over values (sequences, integers, views) and proves it:

- `input`, `keys`, `slots`: the bindings, the calibration, the key slots a tick
  reads, and the word each seat puts on the wire;
- `framebuffer`, `sprite`, `text`, `town`, `world`: the blits and their
  clipping, frames cut from sheets, bitmap text, and the bout's own decisions;
- `online`, `shell`, `place`, `modal`, `status`: the lobby's state machine, its
  layout and note wrapping, the modal screens, and the status panel;
- `args`, `clock`, `chars`, `map`: the command line, the two clocks and the
  pace dial, character handling, and the map's plain records.

Public proof functions state the laws the library keeps across calls, such as
that a held key is one press, that a written seat word is what the simulation
reads, or that a note never takes more lines than it is given.

`app/` is the program around it: the window, the event loop, the controls file
and the float arithmetic of presentation. `tests/` runs the library on concrete
values.
