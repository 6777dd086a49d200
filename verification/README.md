# pcotool

Keeps the tasks of a task service in step with the events of a calendar service: every event of
the next eight weeks that asks for a tracked resource gets a task, with the tags that stand for
its resources.

- `src/` is the library. It decides which requests are made, what follows from the answers, what
  the task for an event looks like, and which tasks have to be created or updated. Verus proves
  its contracts.
- `app/` is the program around it: settings, HTTP, JSON, logging. It creates the tasks that are
  missing; tasks that no longer look like their events are reported in the log, and left as they
  are.
- `tests/` runs the library.

The library trusts `scraper` to read the notes of a task, and `chrono` to write instants and to
add weeks to them. Each of these calls stands in a function of its own, with a comment that says
what is taken for granted.

The program reads `ASANA_PAT`, `ASANA_WORKSPACE_GID`, `ASANA_PROJECT_GID`, `PCO_APP_ID` and
`PCO_SECRET` from the environment.
