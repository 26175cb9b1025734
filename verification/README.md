# ani-dl

A command-line anime downloader for hianime.at: search, pick a show and
episodes (in a TUI or by flags), resolve the HLS streams of each episode and
download them with a parallel segment fetcher that decrypts AES-128 segments
in-process. An optional minter sidecar signs requests for sources that need
it.

## Layout

- `src/` — the library, verified with Verus. Every decision the program makes
  lives here with its contract:
  - `text.rs`, `scan.rs` — character-level searching, splitting, trimming and
    the attribute scanners the page parsers are built from.
  - `api.rs` — the site's pages: search cards, episode lists, server lists,
    the obfuscated embed blob, the embed configuration, master playlists.
  - `providers.rs` — streams and quality selection.
  - `titles.rs` — season inference (explicit markers, franchise rank), base
    titles, episode argument tokens, stream summaries.
  - `naming.rs` — output file names.
  - `hls.rs` — variant choice, segment planning with sticky keys, IVs,
    AES-128-CBC decryption, reassembly, retries.
  - `minter.rs`, `recipe.rs`, `sidecar.rs` — the minter protocol, the
    `aaReq` signing recipe and the reference sidecar's request handling.
  - `config.rs`, `version.rs`, `cli.rs`, `sync.rs`, `tui.rs` — settings,
    version strings, run settings, the health report, and the selection
    screens as state machines.
  - `laws.rs` — properties across functions (base titles and franchise keys
    ignore the subtitle separator, search hits are distinct, season ranks stay
    within the franchise, variant order is stable, caches read back what was
    written, signing buckets, cursor movement, episode picks).
- `tests/` — tests of the library.
- `app/` — the program around it: argument parsing, configuration files,
  HTTP, the terminal UI, the download loop, the minter transports and the
  `ani-dl-minter` sidecar (run when the binary is invoked under that name).
