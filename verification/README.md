# Petrel

The logic of a mail client's engine, as verified functions from plain values
to plain values.

- `src/` is the library. Every function in it carries a contract, and the
  promises that span several functions stand as public proof functions beside
  them.
- `app/` is the engine around it: the SQLite database, the blob directory, the
  network lookups of account discovery, and JSON.
- `tests/` runs the library on concrete values.

| Module | What it decides |
| --- | --- |
| `search_query` | what a search field asks for, and how a query is written out |
| `store::search` | the SQL that asks the database the same question |
| `store::listing`, `store::paging` | which conversations a page holds, and in what order |
| `store::threads`, `threading` | which conversation a message joins |
| `store::ingest` | the key and the record a message is filed under |
| `store::triage`, `actions` | what a triage action changes, sends and undoes |
| `store::drafts`, `outbox` | what is sent, held back, or sent again |
| `store::folders`, `store::sync_state` | folders, renames, and what a round of synchronising learned |
| `store::accounts`, `store::maintenance`, `store::positions` | accounts, upkeep, and hand-ordered lists |
| `retention`, `rules`, `keywords` | when mail is purged, which rules fire, which keywords a tag travels as |
| `mbox`, `blob` | mailbox files and content-addressed blobs |
| `autoconfig` | the servers an address is offered |

What the library takes on trust is marked `external_body`,
`assume_specification` or `uninterp`, each with a note on the function it
speaks of: BLAKE3 and zstd in `blob`, `serde_json` in `store::sync_state`, and
a few functions of the standard library in `text` and `blob`.
