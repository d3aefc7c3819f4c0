# ytx

A small command that prints a YouTube video's transcript, with its decision
logic verified by Verus.

- `src/` is the verified library:
  - `text.rs` — strings as sequences of characters: trimming, splitting,
    prefixes, decimal notation.
  - `args.rs` — the command line: options, language lists, the video word,
    and the laws about them.
  - `video.rs` — finding the video ID in a bare ID or a YouTube URL (URL
    parsing is done by the `url` crate behind one trusted function).
  - `transcripts.rs` — choosing a transcript by language.
  - `listing.rs` — the `--list` output and its order.
  - `run.rs` — one run of the command, as a state machine: list or fetch,
    print, then copy the printed text.
  - `fetch.rs` — the steps of fetching a transcript, as a state machine.
  - `output.rs` — the printed transcript and its time stamps.
  - `clipboard.rs` — which clipboard programs to try, and in which order.
  - `errors.rs` — errors, their exit codes and texts.
- `app/main.rs` runs the command: it reads the arguments, performs the
  requests to YouTube (through the `ytt` crate), the printing and the
  clipboard programs that the library's state machines ask for, and hands
  each outcome back to them.
- `tests/` holds the tests of the library.
