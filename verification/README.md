# sftp-download

An SSH/SFTP download tool: it fetches a remote file, or a remote directory recursively,
with resume, skipping of complete files, parallel transfers, glob filters on file names
(`--include` / `--exclude`, optionally case-insensitive), modification-time filters
(`--since` / `--until`) and a `--latest N` selection. Settings come from the command line,
the environment and an optional TOML/JSON/YAML config file, in that order of priority.

The decisions are made in a library verified with Verus (`src/`):

- `glob`: the glob language (`*`, `?`, `[...]`, `[!...]`) as a specification, the
  backtracking matcher proved against it, and laws of the language;
- `sftp_downloader`: the filter pipeline, directory-entry planning, `--latest`
  (a stable newest-first order), resume/skip planning, chunked reading, and the
  printed progress lines;
- `cli`: merging of arguments with a config file, validation, the masked command
  line printed at start-up, and the choice of config parser;
- `dates`: the `--since` / `--until` date formats as Unix seconds;
- `paths`, `text`, `progress`, `ssh_client`, `error`: remote-path handling, string
  helpers, transfer statistics, SSH configuration and error texts.

`app/` is the program around it: clap and serde, the russh connection, the SFTP I/O,
progress bars and timing.
