# Meridian Mail

A mail client that presents e-mail as a messenger: conversations with
people and groups, threads by subject, and replies joined to the message
they answer. This crate is its core, written in Verus: the functions in
`src/` carry contracts that Verus proves, with one exception. Where the
core calls an outside crate (`regex`, `mail-parser`, `lettre`, `uuid`,
`chrono`, `serde_json`) or a standard-library function that Verus does not
specify, the call sits in a small wrapper marked
`#[verifier::external_body]`. The contract of such a wrapper is believed,
not proved: its doc comment names the call and says what is claimed of it.

## Layout

- `src/db/` — the message store (accounts, contacts, conversations,
  threads, messages, attachments). Its abstract state is `DbState`; every
  operation is specified as a function on that state and keeps the store's
  integrity (`DbState::wf`). `snapshot` copies the tables out and takes them
  back only when they have that integrity.
- `src/imap/` — reading fetched mail: header extraction, MIME parsing
  (through `mail-parser`), quote and signature stripping, the IMAP sequence
  sets, and the batch deletion of messages as a state machine.
- `src/commands/` — what the client decides: subject normalization and
  reply headers, which conversation and thread a message belongs to,
  synchronisation, recording sent mail, the polling and IDLE decisions.
  `matching` proves that conversations are found again by their
  participants' addresses.
- `src/smtp/` — assembling outgoing messages: the raw RFC 5322 copy for
  the Sent folder, and the headers handed to `lettre` (`assemble` holds the
  two wrappers that build the `lettre` message from them).
- `tests/` — tests run against the compiled library.
- `app/` — the program around the library: the command layer, the IMAP and
  SMTP connections, the system credential store, and keeping the store in
  an SQLite file.
