# aether

The core of AETHER, a headless multimedia creation engine driven by a command
language, written in Verus: every function of the library carries a contract that
Verus proves.

- `src/` — the verified library: references and their registry, the composition
  graph, the command language and its parser, timelines, keyframes, EDL export,
  colors, project and vault registries, plans, generation routing and jobs, the
  prompt makers, the media-operation planning of an editing session, commands
  run as transactions over the session state (a failed command leaves it as it
  was) and the versions of a session (history, branches, checkout, undo and
  redo).
- `tests/` — tests of the library on concrete values.
- `app/` — the command-line client: argument handling, the interactive shell,
  the project commands on the project files, and the JSON messages it sends over
  a Unix socket. The daemon that would answer them is not part of this crate:
  its decisions (media-operation planning, generation commands, history,
  branches, checkout, undo and redo) are in `src/`, but the process that holds a
  session, its SQLite store and its media processing are not.

Media processing (FFmpeg, audio DSP, rasterising), the SQLite store and the
network calls to generation providers are outside the library: it decides what
they are asked to do and what their answers mean.
