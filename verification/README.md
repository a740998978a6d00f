# stream-downloader

Finds the media files that a web page offers and downloads them: plain files (in
parallel byte ranges when the server allows it), HLS playlists, and video with a separate
audio track muxed by ffmpeg. Site-specific logic covers YouTube (innertube player API),
Yandex Video (preview pages and the VH player), OK.ru, ok.xxx, VK, Rutube, Vimeo,
Pornhub, XNXX and XVideos.

## Layout

- `src/` — the library, verified with Verus. Every public function states in its
  contract what it returns: URL and page-title handling, the generic HTML and embedded
  JSON extraction, quality selection, output naming, HLS master playlists, download
  planning (byte ranges, retries, collision names, progress throttling), and the
  per-site parsers and decisions. Calls into `url` and `scraper` go through a few small
  trusted wrappers whose contracts name what those crates compute.
- `app/` — the `stream-dl` command line program: argument parsing, HTTP requests,
  files on disk, ffmpeg, and the progress line's floating-point percentage. It hands the
  library plain values and acts on what comes back.
- `tests/` — tests of the library on concrete inputs.
