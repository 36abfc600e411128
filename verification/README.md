# Polaris

Polaris downloads market data snapshots and keeps local copies in step with a remote catalog. It
has a command line and a browser in the terminal.

The library under `src/` is written in Verus: each function states what it returns and what it
changes, and Verus proves that it does so. It reads no files, opens no connections and draws
nothing. The program under `app/` does that: it hands the library plain values and carries out what
the library decides.

## Layout of the library

| Module | What it holds |
| --- | --- |
| `text`, `path`, `order`, `collections` | texts as sequences of characters, paths as text, sorting, sets and maps |
| `calendar`, `digest` | days and instants, digests |
| `error`, `config`, `auth`, `cli` | errors, settings, the stored API key, the command line |
| `api` | requests, answers, pages of snapshots, access to datasets |
| `layout` | where things lie under the data root, and the keys of snapshots |
| `planner`, `syncer`, `staging` | what is to be fetched, retries and locks, how a file gets into place |
| `materialize` | the snapshots of a day in one file |
| `commands`, `output` | what the commands do between reading and printing, and what they print |
| `tui` | the browser: its state, its keys, its pages |

Facts that span several functions are stated as public proof functions beside them, for instance
that what is stored under an opaque key is listed again under that key (`layout`), that a file in
place is complete (`staging`), or that progress is shown before the end of a sync (`tui::sync`).

A few functions of other crates are called through small wrappers whose contracts are not proved
here. Their doc comments name the function and say what is claimed of it: dates and times by
`chrono` (`calendar`), SHA-256 by `sha2` (`digest`), the words for a status code by `reqwest`
(`api`), and from the standard library `String::push` (`text`) and the debug form of an optional
string (`output`).

## Settings

| Variable | Default | Meaning |
| --- | --- | --- |
| `POLARIS_BASE_URL` | `https://api.polaris.supply` | address of the server |
| `POLARIS_API_KEY` | unset | API key, before a stored one |
| `POLARIS_ROOT` | platform data directory | where data is kept |
| `POLARIS_CONCURRENCY` | 4 | snapshots fetched at once |
| `POLARIS_TIMEOUT_SECS` | 60 | timeout of a request |

`TICK_ROOT`, `TICK_CONCURRENCY` and `TICK_TIMEOUT_SECS` are still accepted.

Under the root, `data/` holds snapshots, `tmp/` files that are not complete, and `cache/` what can
be made again. `polaris reset` removes these three and nothing else.
