# Transcribe Offline

A desktop program that transcribes recordings with a local engine. Its logic is a library that is
verified with Verus; the window around it is ordinary Rust.

## Layout

- `src/` is the library.
  - `text`, `pattern`, `similarity`, `json`: texts, regular expressions, likeness of texts and JSON
    values, and what is taken from the `regex`, `strsim` and `serde_json` crates.
  - `clock`, `transcript`, `highlight`, `speakers`: clock times as they are written, cues and their
    times, the line that is spoken, the parts of a transcript that are set off, speaker tags and
    their names.
  - `anonymise`, `hits`: the kinds of entities, the prompt for the model, reading its answer, and
    replacing what it found.
  - `path_text`, `paths`, `library`, `models`, `settings`, `sizes`, `live`, `pages`: how the text of
    a path is read on each system, files that belong together, lists of files, the catalogue of
    models, settings, sizes and times as they are shown.
  - `devices`, `runtime`, `engine`, `downloads`, `board`, `playback`: the devices of the engine, its
    runtime, what is handed to it, downloads, the board of jobs and the player.
  - `transcription`, `worker`: the course of a transcription and of a job, as steps from one event to
    the next action.
  - `session`: the state of the window and what each event does to it.
- `tests/` runs the library on concrete values.
- `app/` is the program: files, threads, the network, sound, and widgets.

## Contracts

Contracts speak of texts as sequences of characters and of state as records of such sequences. Each
event of the window is a function whose contract gives the whole state afterwards. Properties that
span several functions are public proof functions beside the functions they are about.
