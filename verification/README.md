# geoip

A REST API that looks up the geographic location of IP addresses in a
MaxMind GeoLite2 City database, and downloads that database.

The crate is split in two:

- `src/` is the library, verified with Verus. It holds the service's rules:
  - `error`: the error type, its HTTP status, its stable code and its public
    message, and the laws that a failure's internal detail never reaches a
    client and that the code decides the status;
  - `text`: trimming by the Unicode `White_Space` property and decimal
    notation;
  - `download`: MaxMind credentials (trimmed, all or nothing), the download
    URL, the progress text of byte counts (exact integer arithmetic that
    reproduces the `f64` formatting), the check of the download's status, and
    the extraction of the database from a downloaded archive (flate2 and tar
    behind two trusted wrappers; the first entry whose path has the extension
    `mmdb` by `Path::extension` semantics on raw path bytes);
  - `geoip`: how a GeoLite2 City record becomes a lookup result, and how a
    lookup's outcome becomes a response;
  - `routes`: bearer-token authorisation and the assembly of a batch lookup;
  - `cli`: the commands and the start-up download decision.
- `app/` is the program around it: command-line parsing with clap, the axum
  server, the shared database reader, the MaxMind download with reqwest, and
  the file system (temporary file, validation, atomic replacement).

`tests/` exercises the library; some tests compare it with the standard
library (`str::trim`, `Path::extension`, `f64` formatting).
