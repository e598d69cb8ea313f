# mount_deny

Deny lists for bind mounts: gitignore-style patterns that hide matching entries
of a mount from the guest, verified with Verus.

- `src/` is the verified library. Matching itself is done by the `ignore` crate;
  what is relied on of it stands in `src/gitignore.rs`, over the reading of a
  pattern line in `src/line.rs` and `src/glob.rs`. `src/laws.rs` holds the laws
  that follow.
- `tests/` run the library against the real matcher. `tests/line_model.rs` holds
  the reading of a line against it, line by line.
- `app/` builds lists for mount roots on the host, with the file operations of
  the case probe.

A pattern that cannot be read or compiled is skipped by itself; all others are
in force, however many they are. Patterns whose braces nest more than a thousand
deep are skipped too, which takes in some that the matcher could compile: those
with nothing in their innermost braces. One pattern that starts with `**/` may
have up to half a billion characters, which `rules::check_lines` tells.

The library's contracts are those of Unix hosts, where names are bytes and `/`
alone separates them.
