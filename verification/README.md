# sealbox

The verified core of the sealbox secret store, written in Verus.

- `src/text.rs`: trailing-newline trimming, Unicode whitespace, substring search.
- `src/input.rs`, `src/config.rs`: trimming of piped and file secrets; the checks on the server settings.
- `src/password.rs`, `src/random.rs`: password policies and random password generation over `rand`.
- `src/json.rs`: JSON string literals as `serde_json` writes them, and how they read back.
- `src/credential.rs`: credential JSON payloads and credential listings.
- `app/`: environment, file, terminal and HTTP edges, built on the library.
