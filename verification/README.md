# scriba_rs

The verified core of Scriba, a local speech-to-text window built on Whisper.

- `src/` is checked by Verus: the model catalogue and where models and settings are
  stored (`models`, `paths`, `config`), byte counts for people (`models::human_bytes`),
  the settings text and its reading (`config`, `text`), decimal labels (`decimal`), the
  decisions the window takes (`session`) and the tray icon's pixels (`tray`).
- `app/` holds what touches the outside world: reading and writing the settings file,
  downloading models, microphone capture, Whisper inference and the result type handed to
  the caller.
- `tests/` runs the library on concrete values, including comparisons with the
  floating-point computations that the integer code stands for.
