# ebloid

The logic of a desktop client for the eblo.id site, verified with Verus.

- `src/` is the library. Each module states its rules as specification
  functions and proves the executable code against them:
  - `header`: the file name that a server's answer gives (its status and
    its `Content-Disposition` header), percent decoding, and the rules that
    make a received name a safe file name;
  - `links`: parsed web addresses, which of them are site pages, and where
    `ebloid:` links lead;
  - `routing`: what the window does with a navigation, a new-window request,
    a deep link or an external link;
  - `naming`: the search for a free name in the downloads folder, with the
    path rules of each platform;
  - `downloads`: the download history, its changes and progress reports;
  - `settings`: the settings and the bookkeeping of seen notifications;
  - `window`, `monitor`, `system`, `clock`: labels, scripts, the connection
    watchdog, system commands and the clock.
- `tests/` runs the library on concrete values.
- `app/` is the Tauri program around the library: windows, tray, files,
  network and plugins.
