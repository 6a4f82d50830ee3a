# musimanager

A terminal music manager: it browses music files and YouTube (through
Python helpers), keeps queues of songs, and shows the art of the song
playing with coloured half blocks. The library is written in Verus: every
function in `src/` carries a contract that Verus proves.

## Layout

- `src/content/register.rs`: the registers that hold songs and providers
  under ids made of a slot and a generation, with a count of the ids held
  to each item; a slot freed by its last id is reused by a later allocation
  (the smallest empty slot first) under a fresh generation, so an id of a
  dropped item never reaches a newer one.
- `src/content/providers/`: the providers of songs and of other providers
  (main provider, queues, the queue provider, file and YouTube explorers,
  albums and playlists), with their selection, paste and removal.
- `src/content/stack.rs`: the stack of what is shown (normal, menu, edit
  screens) and the selections within it.
- `src/content/manager/`: the content manager that ties registers, stack,
  edits and playback together.
  - `manager.rs`: opening and closing providers, loading, yanking and
    pasting, playing, and the actions an edit asks for.
  - `give_back.rs`: giving ids back, one at a time, with what a dropped
    provider listed given back after it.
  - `queueing.rs`: reusing or making the queue a song plays from.
  - `check.rs`: comparing the registers' counts with the ids actually
    held.
  - `navigation.rs`, `actions.rs`: moving around, and what each action
    leaves.
- `src/service/`: edits and undo, text handling (typing, indentation of
  Python code), and the Python code run to ask YouTube.
- `src/image/`: decoding and fitting images (through the `image` crate) and
  printing them as half blocks.
- `src/app/`: keys and typing.
- `app/`: the terminal program around the library: the event loop,
  drawing, files, network and the Python interpreter.
- `tests/`: tests of the library on concrete values.
