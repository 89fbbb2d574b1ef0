# http_management

The decision logic of a mail server's HTTP management endpoints, verified with Verus:

- `log` — parsing server log lines, reading log queries from the request parameters,
  the scan that filters and pages log lines (newest first), and discovering service names.
- `custom_domains` — routing, domain validation, DNS instructions, and the settings that
  store, list, delete and mark custom domains as verified.
- `pending_actions` — the queue of destructive actions with a countdown, their listing
  and cancellation.
- `terminal` — which diagnostic commands may run, and the answers of a run.
- `topology` — the service topology graph.
- `text`, `url`, `http`, `ids` — character-sequence operations, query strings and path
  elements, request methods and permissions, and record identifiers.

`app/` holds the HTTP handlers around the library: permission checks, request bodies,
the settings store, log files, DNS lookups, processes, timers and JSON responses.
