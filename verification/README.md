# rusty_spotted_cat

A resumable file transfer engine: chunked multipart uploads and HEAD + ranged-GET
downloads, scheduled with per-direction concurrency limits, deduplicated by file sign
(uploads) or URL (downloads), with pause, resume, cancel, retries of failed chunks and
progress callbacks.

## Layout

- `src/` is the verified library (Verus). It holds every decision of the engine:
  - `scheduler_state`: the scheduler as a state machine from requests and transfer reports
    to a new state and a list of actions, with its abstract model, its invariant and the
    laws it keeps (concurrency limits, duplicate refusal, pause/resume, cancel, completion,
    queue order);
  - `group_run`: the state of one running transfer and its retry budget;
  - `default_http_client`, `http_breakpoint`: what HTTP answers mean (resume offsets,
    `Range` headers, `Content-Range` validation, form fields, `Content-Length`);
  - `text`: decimal, hexadecimal and UUID text, number parsing;
  - `sign`: the MD5 sign of an upload, through the `md5` crate;
  - `client_gate`, `listeners`, `pounce_task`, `meow_config`, `error` and the small
    value types.
- `app/` is ordinary Rust around it: the async client, the scheduler thread and its
  channels, reqwest requests, file access, callbacks and the debug log.
- `tests/` runs the library on concrete values.
