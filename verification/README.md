# hydrofoil

The verified core of the hydrofoil lakehouse query engine and of its
OpenLineage lineage service. The library's functions carry contracts that
Verus proves; the few calls into other crates (JSON parsing, time, UUIDs,
URLs, durations, header values, proxies) stand behind small trusted items
whose contracts are believed, not proved.

- `src/` — the library.
  - Query engine: configuration and its environment overlays (`config`),
    request metadata (`agent`, `identity`, `server`, `sessions`), OpenLineage
    job identity and facets (`lineage`), catalog tag classification (`tags`),
    Delta DDL planning (`planner`, `external_tables`), the query and ingest
    surfaces' rules (`query`, `query_stream`, `ingest`), the object-store
    HTTP client options (`telemetry`).
  - Lineage service (`svc`): configuration and sink resolution, event
    intake from raw JSON (`ingest`, over `json`), the decoding of stored
    events (`decode`), the buffered writer's flush policy, and the Marquez-compatible
    read model folded from the event log (jobs, datasets, runs, lineage
    graph, column lineage, run facets, the events page).
  - Shared text, ordering and map utilities (`text`, `sort`, `strmap`,
    `urls`).
- `tests/` — tests of the library, run against the real outside crates.
- `app/` — the lineage-service process: configuration loading with the
  `config` crate, the buffered writer task, reading documents from standard
  input or a file, and rendering the library's answers as JSON.
