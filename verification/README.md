# filehost

A somewhat minimalistic file hosting service. The rules of the service are a
library that Verus verifies; the program around it does the input and output.

## Layout

- `src/`: the library. Intake of uploads (`screening`, `intake`, `upload`,
  `media`, `link`), serving (`handlers`), administration (`admin`, `cli`,
  `db`), ban lists and caches (`ban_cache`, `ttl_cache`, `challenge`,
  `rate_limit`, `sync`), maintenance (`dedup`, `import`, `import_laws`,
  `upload_log`, `nsfw`), the virus scanner's protocol (`clamd`), proof of work (`pow`), and
  what they share (`text`, `bytes`, `ip`, `ip_text`, `ids`, `names`,
  `timestamp`, `util`).
- `tests/`: tests of the library.
- `app/`: the program: web server, database, files, command line.

Steps that need the outside world are state machines in the library: `Intake`,
`ImportFile`, `DedupRun`, `Scan` and `Inquiry` say what is to be done next, and the
program does it and reports what came of it.

## Configuration

By environment variables, see `app/settings.rs`. Templates are read from
`templates/` and migrations from `migrations/`, both in the working directory.
