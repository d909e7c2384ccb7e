# mirus

Ranks package mirrors: fetches the mirror status list, filters and sorts the
mirrors, optionally measures their download rates, and writes a pacman
mirrorlist.

- `src/` is the library, verified with Verus: mirror records and their
  conversion from the raw status records (`mirror`), sort and filter criteria
  (`criteria`) with a stable sort (`sorting`), the pipeline and its
  step-by-step execution (`pipeline`), measurement settings and download
  bookkeeping (`measure`), the planning of a pipeline from command-line
  options (`cli::parser`) and the lexical resolution of `.` and `..` in a
  save path (`cli::paths`), the decisions of a run (`run`) and
  the order of its steps as a state machine (`flow`), errors and events.
  Binary64 measurements are held by their bit patterns (`float`), points and
  spans of time as plain integers (`time`), URLs by their serialization, with
  the `url` crate parsing, joining and reading them (`urls`).
- `app/` is the program around it: the command line (clap), HTTP requests and
  streaming (reqwest, tokio), the JSON files (serde), and the progress bars
  (indicatif).
- `tests/` exercises the library on concrete values.
