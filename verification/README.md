# zeron

Verified parts of a chat application for coding agents.

- `src/` is the library. Its functions have contracts, which Verus proves, all
  but those of the trusted items named below.
  - The harvest of background subagents: `spawn`, `store`, `transcript`, `tail`,
    `lifecycle`, `harvest`, over `event`, `json` and `text`.
  - The account pill: `account_usage`, over `fraction`.
  - Identity tiles: `identity`.
- `app/` is ordinary Rust around it: the session store on disk, the event
  channel, the clock, and drawing with gpui.
- `tests/` runs the library.

Trusted, and marked so in the source: reading JSON with `serde_json` and taking
a `serde_json::Value` apart (`json`), and what `char::is_alphanumeric` and
`char::to_uppercase` say of a character (`identity`).
