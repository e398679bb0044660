# shm_cached

An HTTP cache for Shimmie galleries, with its decisions verified in Verus.

Several hosts share the images of a gallery. A consistent-hash ring gives each
image a first and a second owner, as long as two hosts have a position on it.
Any other host redirects to the first owner, at the address that the gallery's
link configuration gives it; an owner serves the image from disk, or fetches it
from the backend and keeps it. The rings come from the same configuration, and a
banned image is purged.

## Layout

- `src/` is the verified library. It decides; it does no I/O.
  - `service`, `transfer`: a request, step by step, and what it counts
  - `walk`, `ring`, `silos`: who owns an image, and how the configuration says so
  - `db`: what the database has a host do
  - `response`, `date`, `uri`: HTTP
  - `stats`: counters and their summaries
  - `path`, `text`, `registry`, `args`: what the others build on
  - `laws`: what holds of a request as a whole
- `app/` is the server around it: sockets, files, the database, TLS. It performs
  each step that the library names, and hands back what came of it.
- `tests/` runs the library on concrete values.

## What is trusted

Hash rings are `flexihash`'s, HTTP dates `httpdate`'s and URIs `hyper`'s. What
the library relies on of each is stated, and not proved, in `ring`, `date` and
`uri`.

## Faults

Some input ends the task that serves a request without an answer, such as a hash
of fewer than four bytes. The library returns these as `Fault` (or as
`ConfigError`, for a configured value), and the server panics on them.
