# courses

The courses platform: workshop guides written in Markdown with TOML
frontmatter, rendered into guide pages and slide decks, served together with a
scenario console (events, gated handlers, health probes, SNS notifications) and
an echo server for networking exercises.

## Layout

- `src/` is the library, verified with Verus. Every public function states in
  `requires`/`ensures` what it returns, and the laws of the library are public
  proof functions (`lemma_*`).
  - Content: `section` (frontmatter), `manifest`, `catalog` (assembling a
    course), `directives` and `solutions` (the `:::` blocks and slides),
    `markdown` (rendering, heading slugs, `{%var%}` tokens), `slides`,
    `render` (pages and the site), `goto_apps` and `file_apps` (tag
    expansion), `dev` (reload decisions, text assets).
  - Console: `events` (envelope, idempotency window, gating, dispatch,
    payloads), `health` (probes, lifecycle, status codes), `faults`
    (injected outages), `notifications` (SNS and EventBridge messages).
  - `echo`: everything the echo server answers, from the captured request.
  - `xtask`: the decisions of the repository task runner.
  - `toml_doc` and `json_doc` carry TOML and JSON documents, as parsed by
    `toml` and `serde_json`, into the library's own value types.
- `app/` is the program around it: the axum server, file system and network
  I/O, AWS clients, the file watcher, the clock, and the command line.
- `tests/` runs the library on concrete inputs.

Content is read from `content/` under the working directory
(`CB_CONTENT_ROOT` overrides it); with `CB_DEV_ROOT` set, content and text
assets are read from that repository root and reloaded on change.
