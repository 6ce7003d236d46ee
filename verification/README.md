# codex_discovery

Finds the data directory and the executable of a Codex installation, and reports what
it found in a form that can be shown: a location under the user's home keeps its tail,
any other location is not echoed, nor is one that starts with the home but leads
elsewhere.

The library in `src/` never touches the machine. A search takes a `Host` (the platform
and the environment variables) and the `Observations` made so far. It returns its
outcome, or the `Query` that it is stuck on; once the answer has been recorded, the
same search is asked again. Whether a directory holds Codex data is found out by a
walk, `HomeInspection`, which asks for metadata, canonical forms, listings and lines.

Every function of the library has a contract that Verus proves. What is taken on trust
is said where it is declared: `String::push` and `String::from_utf8_lossy` in `text`,
and the two calls into `serde_json` in `record`. The laws, such as that
outcomes do not change once more is known, or that the walk visits a directory tree
depth first, are the public proof functions whose names begin with `law_`.

| module        | what it holds                                             |
|---------------|-----------------------------------------------------------|
| `bytes`       | byte strings                                              |
| `text`        | texts as sequences of characters                          |
| `path`        | paths of each platform, read by their bytes               |
| `host`        | the platform and the environment                          |
| `observation` | what is known of the machine, and what to find out next   |
| `redaction`   | what may be shown of a path                               |
| `status`      | what is reported                                          |
| `record`      | Codex records in JSON Lines logs                          |
| `validation`  | what a directory may turn out to be                       |
| `inspection`  | the walk of a directory, step by step                     |
| `walk`        | the walk as a recursion over a directory tree             |
| `home`        | the search for the data directory                         |
| `binary`      | the search for the executable                             |

`app/` is the ordinary Rust around it: it takes the snapshot of the environment and
answers the queries.
