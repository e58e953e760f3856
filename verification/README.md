# Delay Mirror

A mirror for NPM, Go module and PyPI registries that holds young releases back:
a version is served only once it has been public for a configured number of days.
A version that is too young is refused, or the newest version that is old enough
is served in its place.

## Layout

- `src/` is the library: the delay rule, the answers of every endpoint, and what is
  said to and read from the upstream registries. It is written in Verus, and its
  contracts are proved.
  - `delay_check` decides which versions are old enough; `delay_logger` writes down
    what was decided; `allowlist` decides which packages are served at all; `config`
    and `cache` hold the settings.
  - `npm`, `gomod` and `pypi` answer at the edge; `server` and `pypi_handler` answer
    in the stand-alone server; `router` finds the endpoint of a path.
  - `text`, `names`, `json`, `reply`, `http`, `fetch`, `timestamp`, `pattern` and
    `digest` are what these are built from.
- `app/` holds the stand-alone server and the worker: sockets, clocks of caches, the
  database of metadata, and the environment. It asks the library what to do, does
  it, and hands back what came of it.
- `tests/` runs the library on examples.

## What is trusted

The library calls chrono for dates, regex for patterns and sha2 for checksums, and a
few functions of the standard library on characters. Each call stands behind a
declaration whose contract is believed without proof: see `timestamp`, `pattern`,
`digest` and the character classes in `text`.
