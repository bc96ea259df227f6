# my_cli

Tools for practicing Russian with a dataset of Russian/English sentence
pairs: select records by printer-style id lists (`1,3,5-8`), speak text with
Piper voices, play or render pairs clause by clause, and check the host for
the voices and programs this needs.

- `src/` is the library, verified with Verus: id lists, record selection,
  voice choice, clause splitting, argument parsing, the dataset reader used by
  the mp3 renderer, and the plans the commands carry out. Laws that relate
  several functions are public proof functions named `law_*`.
- `app/` is the program around it: files, processes (`piper`, `aplay`,
  `ffmpeg`, `curl`, `dnf`), the terminal, JSON through serde, and the audio
  buffers.
- `tests/` exercises the library on concrete values.
