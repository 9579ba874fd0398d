# wornitor

Wornitor records what happens on the screen during the working day:
it captures the display at an interval, drops frames that look like the
previous one, has a language model describe batches of frames, groups the
descriptions into activity segments, and writes daily, weekly and monthly
reports from them.

## Layout

- `src/` — the library, verified with Verus: screenshot frames and
  perceptual-hash deduplication, the capture loop's decisions (queueing,
  idle detection, extending or starting segments, batch submission and
  polling), report building (merging adjacent segments, per-category
  totals, HTML and Markdown renderings, report periods), configuration
  updates and presets, the model providers' request texts and the meaning
  of their answers, the tray state, and the database records.  Every public
  function carries a contract; the properties that span several functions
  are stated as public proof functions (`lemma_*`).
- `tests/` — tests of the library on concrete values.
- `app/` — the desktop application around the library: the Tauri window,
  tray and commands, the SQLite database, the configuration files, the HTTP
  calls to model providers, screen capture, and the background loops.

Calls into `image`, `base64`, `chrono`, `uuid` and `serde_json` made by the
library go through small trusted wrappers whose contracts are stated next to
them.
