# unicloud

The backend of a cloud-drive manager: users sign in with Google, link Google
Drive accounts, browse their folders and queue copies between accounts. The
access tokens of the linked accounts are stored encrypted (AES-256-GCM) and
refreshed by a worker before they expire.

## Layout

- `src/` — the library, verified with Verus:
  - `common/` — token encryption and decryption, the settings, text helpers,
    UUID reading;
  - `services/` — the decisions of the API handlers (errors and their HTTP
    answers, sign-in cookies, linking a drive, copy jobs, folder listings,
    the folder tree of a drive built from its flat listing), of the refresh
    worker and of the websocket service;
  - `api/` — the first API server's sign-in and session check.
- `tests/` — tests of the library on concrete values.
- `app/` — the programs around the library: the HTTP servers (axum), the
  database (sea-orm) and Redis access, the calls to Google's APIs, the
  workers and the websocket server. `app/main.rs` picks the program from its
  first argument: `api`, `auth-api`, `refresh-worker`, `transfer-worker` or
  `ws`.
