# odak

Odak is a personal and shared task list: tasks with priorities, tags, subtasks, reminders and
repeat rules, kept in `data.json` and synchronised with a Supabase backend, with group
sharing, comments over Realtime and a Discord sign-in.

This crate holds its logic as a Verus-verified library, and a small program around it.

- `src/` — the library. Every function states what it returns or changes in `requires` /
  `ensures`, and Verus proves it. The task document and its operations (`data`), reminders and
  repeat rules (`reminders`, `recurrence`), list views and searches (`views`, `list`, `palette`),
  the task form (`form`), groups (`groups`), the sign-in protocol (`auth`), the sync queue and
  its turns (`sync`, `turn`), the Realtime channel (`realtime`, `link`), Markdown structure
  (`markdown`), the text-editing buffer (`edit`) and the smaller pieces of the window
  (`shell`, `picker`, `widgets`, `account`, `motion`, `notices`, `updater`).
  Properties that span several operations stand as public proof functions named `law_*`.
  Small lookups (known avatars, the ids a step has seen) are kept as vectors searched in order
  rather than hash maps, so that their contracts speak of plain sequences; the lists are a few
  dozen entries.
- Calls into chrono, uuid, sha2, base64, url, serde_json, pulldown-cmark and
  unicode-segmentation are made through small trusted wrappers whose contracts say what those
  crates document; each carries a doc comment naming the call.
- `app/` — ordinary Rust: loading and saving `data.json`, the HTTP client for Supabase, the
  WebSocket thread and the main loop. It hands plain values to the library and carries out
  what the library decides.
- `tests/` — the test suite, run against the compiled library with the real outside crates.
