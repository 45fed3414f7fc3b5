# ytdlp_gui

The backend of a desktop front end for yt-dlp, as a library verified with
Verus, and the Tauri application around it.

- `src/jobs.rs` — the download queue: starting, cancelling, listing and
  clearing jobs, and how a run ends; laws relating these operations.
- `src/options.rs` — the downloader command line built from the user's
  options (format, folder, cookies, extra arguments split as a shell would).
- `src/output.rs` — decoding and reading the downloader's stdout (titles,
  file paths, progress) and stderr.
- `src/metadata.rs` — URL probing, version checks, the default download folder.
- `src/binaries.rs` — which downloader and ffmpeg copy to run.
- `src/updater.rs` — the newest release version.
- `src/text.rs` — trimming, lines, splitting and decoding of text.
- `app/` — the Tauri commands, processes, files, network and events.
