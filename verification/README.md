# zwork_sidecar

The logic of the zWork sidecar as a Verus library. The functions in
`src/` carry contracts that Verus proves, except the small wrappers marked
`#[verifier::external_body]` around calls into std and outside crates,
whose contracts are taken on trust and whose doc comments say what they
claim; the `*_laws` modules state properties that span several functions.

- `src/` — the verified library.
  - Text and collections: `text`, `assoc` (sorted string-keyed maps),
    `b64`, `truncate`.
  - Coding tools: `edit_diff`, `diff`, `read`, `grep`, `listing` (ls and
    find), `glob`, `path_utils`, `image`, `output_accumulator`,
    `bash_output`, `tools`.
  - Prompts and transcripts: `system_prompt`, `skills`, `skill_loader`,
    `transform`, `transcript`, `messages`, `types`.
  - Sessions: `session_types`, `values`, `commit`, `storage`,
    `fork_policy`, `session_context`.
  - Server and stores: `server` (credentials, provider list, onboarding,
    MIME and file-name helpers), `office`, `validation` (JSON-schema
    checks), `schedulestore`, `scheduler`, `scheduled_run`, `inboxstore`,
    `memory`, `secretstore`, `paths`, `mcp`, `clock` (time, random
    bytes, UUIDs).
  - Laws: `edit_laws`, `system_prompt_laws`, `transform_laws`,
    `storage_laws`.
- `tests/` — tests that run the library with the real outside crates.
- `app/` — a command-line front end that does the I/O (processes, files,
  environment, Python) and hands plain values to the library.
