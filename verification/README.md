# priority_notify

The client side of *priority-notify*: an Android app (Tauri 2) that lists a
user's notifications, receives new ones over server-sent events, raises
system notifications for high and critical ones, and reminds the user of
unread ones.

- `src/` is the verified library (Verus):
  - `models` — the notification, page, user and status-change types;
  - `text` — decimal rendering and parsing of integers, trimming, joining;
  - `api` — the API client and the addresses and error texts of its requests;
  - `sse` — the event-stream reader (line splitting, field parsing, event
    assembly), event kinds, system-notification content, polling addresses;
  - `reconnect` — the reconnection policy (exponential backoff, then polling);
  - `reminder` — the reminder interval setting and the reminder text;
  - `commands` — the shared application state and the decisions of the
    commands, and settings as stored JSON values.
- `app/` is the Tauri application around it: plugin registration, commands,
  HTTP requests, the stream and reminder tasks, and serializable copies of the
  data types.
- `tests/` runs the library on concrete inputs.
