# pass-gen

A deterministic password generator: a site name, a core password and a per-user seed
are stretched with PBKDF2-HMAC-SHA256 or Argon2id, and the derived key is mapped onto
the chosen character classes, with at least one digit and one symbol when asked for
(in any password of two or more characters).

Layout:

- `src/` is the library, written in Verus with its contracts and proofs:
  - `kdf.rs`: the character classes, the password model and `generate_password`,
    with the laws of length, alphabet, class presence and determinism;
  - `server.rs`: the small JSON field reader of the browser UI and the answer to a
    request;
  - `seed.rs`, `config.rs`, `init.rs`: seed encoding, `.env` reading and paths;
  - `cli.rs`, `input.rs`, `winacl.rs`: symbol-set choice, masked input keys and the
    owner-only ACL decision;
  - `text.rs`: string helpers shared by the others;
  - `trusted.rs`: the calls into pbkdf2, argon2, base64 and getrandom, with the
    contracts that the library relies on.
- `app/` is the program around it: argument parsing, terminal, clipboard, files, the
  HTTP server and the Windows API calls.
- `tests/` runs the library with the real outside crates.
