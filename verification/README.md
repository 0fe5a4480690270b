# codex_api_switcher

CodexPilot switches the Codex CLI between the official service and
third-party providers. It runs a local proxy that turns Codex's Responses
API traffic into chat-completions requests, keeps the conversation history
those providers need, edits Codex's `config.toml`, `auth.json` and `.env`
with backups, manages Codex accounts and lists Codex sessions.

The library in `src/` is verified with Verus:

- `json`, `text`, `sorting`: the JSON value model (parsed and written by
  `serde_json`), string helpers and a stable sort, with their
  specifications.
- `transform`, `history`, `proxy`: Responses ⇄ chat conversion, the
  conversation cache, and the decisions of the streaming proxy.
- `store`, `codex_live`, `official_auth`, `official_backup`, `network_env`:
  provider configuration, the Codex config takeover (through `toml_edit`),
  `auth.json` repair, backups and the proxy `.env` block.
- `accounts`, `usage`, `codex_binary`: managed accounts, account switching
  plans, token and usage bookkeeping, and where to look for the `codex`
  program (`PATH`, then nvm installs, newest Node first).
- `sessions`: session summaries, ordering, project grouping, previews and
  the deletion log.

`app/` is a command-line front end that does the file, process and network
work around the library: it hands the text or bytes of Codex's files and
of upstream answers to the library (its own record files it reads with
serde), and writes out what comes back; the upstream
stream loop there only waits, sends keepalives and passes each piece of
text to `proxy::sse_step`. `tests/` exercises
the library on concrete inputs.
