# spicedb-rs-client

A client for the SpiceDB gRPC API, with the maintenance tasks that keep its
vendored protocol definitions and workspace version current. The library in
`src/` is verified with Verus; `app/` holds the parts that do I/O.

- `src/client.rs`: client settings, the URI that is dialled, building a client
  over a channel.
- `src/auth.rs`: the `authorization: Bearer <token>` value attached to requests.
- `src/transport.rs`: the tonic types the client carries and the calls into tonic.
- `src/version.rs`: finding and rewriting the workspace version in a manifest.
- `src/rewrite.rs`: what a rewrite does to the manifest's lines and version.
- `src/proto_sync.rs`: which API checkout is used, which locked modules are
  exported and where, which files are copied.
- `src/text.rs`: the character-level string operations the above rest on.
- `app/client.rs`: connecting (eagerly or lazily) and the request interceptor.
- `app/xtask.rs`: the `cargo xtask` commands `sync-proto` and `bump-version`.
