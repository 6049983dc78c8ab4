# xdsign

The verified core of a desktop helper for class check-in and live
classrooms. `src/` is the library, proved with Verus:

- `table` — a text-keyed table kept in insertion order with no repeated key
  (the logged-in accounts, place and room indexes), with the laws relating
  `insert`, `remove` and lookups.
- `uid_set` — the set of accounts chosen for a sign-in and its commands.
- `account` — account pairs, login names of the form `type:name`, listing,
  loading and deleting accounts, and picking the sessions for a request.
- `sign` — sign-in kinds, their events and signers, payload handling
  (quit requests, quoted payloads), result events, open activities.
- `live`, `room` — choosing the current lecture, the classroom of a lecture,
  trimming classroom names, joining sessions with classrooms.
- `location` — reading a location identifier as a decimal `i64`.
- `schedule` — date counts to (school year, term, week).
- `crawl` — how the crawl of the classroom index is split between workers,
  with the proof that the pieces partition the work.
- `progress` — progress-bar stages, events and counters.

`app/` is the Tauri shell around it: commands, event listeners, the login
and sign-in services, network access and screen capture.
