# plan-env-md

The rules of a document service for HTML plans, and the agent tool that
pushes and reads them, proved in Verus. The service's own HTTP handlers,
database and object storage are not part of this crate: it holds the
decisions those handlers make, as functions from plain values to plain
values.

- `src/` is the verified library: question and answer rules, upload checks,
  tag and alias rules, signed tokens and cookies, the decisions of the
  document view, the pages it writes, the tool's text renderers and its
  projections of a plan. Each public function states what it returns; the
  laws that tie functions together are public proof functions beside them.
  Calls into `sha2`, `hmac`, `argon2`, `getrandom`, `base64`, `serde_json`,
  `scraper` and `url` stand behind small trusted wrappers whose contracts
  name what the call returns.
- `tests/` runs the library with those crates linked.
- `app/` is the agent tool itself: an MCP server on stdio that reads its
  configuration, talks HTTP to the service and hands plain values to the
  library. `app/rate_limit.rs` is not part of the tool, and nothing in it
  calls it: it is the service's per-address rate limiter, kept here because
  its token count is floating point and so cannot stand in the verified
  library, while the service's handlers that would call it are not in this
  crate.
