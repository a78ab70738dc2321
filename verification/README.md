# axon

A local, deterministic financial and audit analyser for accounting work:
OpenDART statements merged into account × year tables, footing checks and
ratios in exact decimals, XBRL calculation trees, ledger scans (duplicates,
number gaps), exports, and the client side of an optional AI assistant
daemon. The library is written in Verus: every function in `src/` carries a
contract, and Verus proves the code against it.

## Layout

- `src/domain` — statements, facts, money (exact decimals), account names and
  aliases, the standard taxonomy, calculation trees, and tables.
- `src/service` — footing checks, financial ratios, sampling seeds.
- `src/export`, `src/port` — CSV and JSON documents, export naming, cell
  fitting for printed tables.
- `src/dart` — OpenDART responses: status codes, statement rows to facts,
  the company list, the taxonomy, filings and the XBRL linkbase.
- `src/ledger` — the dataset store (with cascading removal), imports from a
  raw grid or a CSV text, duplicate and gap scans, counterpart extraction
  (vouchers of a target account, rows labelled by direction), analysis
  bookkeeping.
- `src/daemon` — the assistant daemon's client: event-stream decoding, what
  each event asks for, workspace confinement of file tools, file edits,
  shell output capping, approvals, the session cursor, login steps.
- `src/text.rs`, `src/seqs.rs`, `src/strmap.rs` — text, sequence and map
  vocabulary shared by the contracts.
- `tests/` — tests of the library through its public interface.
- `app/` — the program around the library: HTTP, files, the OS keychain,
  processes, and what needs floating point (spreadsheet and PDF drawing,
  the leading-digit law, reading debit/credit amounts against a tolerance,
  monetary-unit sampling).

Laws that span functions are stated as public proof functions named
`law_*` or `lemma_*` next to the functions they speak of.
