# lemon_tokei

A badge service for repository statistics (lines of code, comments, blank
lines, files, or the most used languages), served at
`/b1/<domain>/<namespace>/<repository>`.

- `src/` is the verified library: settings (`config`), reading the output of
  `git ls-remote` (`ls_remote`), repository names and identifiers (`repo`),
  per-language counts, their order and selection (`languages`), badge
  contents (`badge`), and the request handling as a sequence of steps between
  the outside work (`handler`). Character-level helpers are in `text`.
- `app/` is the HTTP server around it: actix-web, the `git` commands, the
  caches, line counting with tokei and SVG drawing with rsbadges.

Settings come from the environment (or a `.env` file): `TOKEI_PORT` (default
8000) and `ALLOWED_USERS` (comma-separated; empty or unset serves every user).
