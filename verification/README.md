# Kawa Library

The core of a desktop organiser for a local video library, written in Verus:
every rule the app applies to names, paths, web pages, cookies and reports
is an executable function with a contract that Verus proves.

## Layout

- `src/` — the verified library.
  - `text`, `fspath`, `patterns`: text helpers, and the trusted wrappers
    around `std::path` and `regex`.
  - `codes`: video extensions, catalogue codes in file names, the rename rules.
  - `url`: site addresses, search pages, link resolution, percent encoding.
  - `html`: reading actor names, detail links and avatars from pages.
  - `library`: folder rules, path checks under the library root, operation logs.
  - `download`: planning and checking moves out of the download folder.
  - `archive`: the metadata lookup (a state machine driven by its caller),
    filing videos under actor folders.
  - `session`, `browser`: site sessions, Chromium cookie decryption, request
    building, and the browser-session import (a state machine).
  - `order`: a verified stable sort by keys.
  - `report`: every section of the library report, and its incremental refresh.
- `tests/` — tests of the library on concrete values.
- `app/` — the Tauri shell: commands, SQLite, the file system, WinHTTP,
  DPAPI, ffmpeg, and the floating-point sizes shown in the interface.
