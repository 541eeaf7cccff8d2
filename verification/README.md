# shelf

The verified core of Shelf, a desktop library and reader for local PDF and MP4
files with an optional remote reader over a Cloudflare tunnel or the local
network.

- `src/` holds the library's rules with their contracts, proved by Verus: how
  files are classified and parsed into chapters, how series are found under the
  watched folders, the job queue's order, the page cache's accounting and file
  names, segment geometry, byte ranges and media URLs, sign-in, lockout and
  session cookies, the host allow-list and HTTPS redirect, uploads, the tunnel's
  supervision decisions and the nearby-session identity.
- `tests/` runs the library on concrete values.
- `app/` is the ordinary Rust around it: file system walks, processes, the
  worker thread, and the places where outside services are called.

Verify with `verus` on `src/lib.rs`; test with `cargo test`.
