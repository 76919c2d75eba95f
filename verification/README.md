# shazam_daemon

A desktop audio recognition daemon with an MPRIS2 D-Bus service, built
around a library verified with Verus.

## Layout

- `src/` — the verified library
  - `audio/capture.rs` — the 12-second ring buffer of 16 kHz samples, PCM
    decoding, `pw-record` arguments
  - `dsp/signature_format.rs` — the landmark signature and its binary and
    data-URI encodings
  - `dsp/signature_reading.rs` — how the binary encoding reads back, and
    the proof that it gives back the signature it was written from
  - `dsp/algorithm.rs` — the 2048-sample FFT window, frequency bands of
    peaks, pass numbering
  - `network/models.rs` — the recognition reply and its consolidation into a
    recognized song; `network/client.rs` — the endpoint address
  - `history/storage.rs` — history file locations, log lines and records,
    recent listings and search
  - `mpris/player.rs` — MPRIS metadata, playback status, transport commands
  - `downloader/jiosaavn.rs` — catalogue query, result choice, stream link,
    file names, artwork links
  - `daemon.rs` — the main loop's decisions, status panel texts, HTML
    escaping, PID file parsing
  - `text.rs` — character-level text operations
- `app/` — the program: command line, capture process, FFT and peak
  picking, HTTP, files, D-Bus
- `tests/` — tests of the library
