# zkv

A key-value store on Zcash shielded memos. A database is an account of a wallet:
whoever holds its viewing key can read it, and whoever its registry names can
write it. A write is a signed text memo on a shielded output; reading replays the
memos in chain order.

`src/` is the library. Every function in it is verified against its contract.

- `protocol`: operations, scopes, block flags, versions, the registry of owners
  and writers, sequences, and which memos are honored.
- `internal`: the snapshot of confirmed state and its history, the scan of the
  wallet's memos, what is promoted and what is replayed, the list of writes, the
  ledger of funds, payments and requests, the preparation of writes, and when a
  read needs a scan.
- `fleet`, `config`, `network`, `freshness`, `db`: how databases share one scan,
  their settings, the networks, the age of a build, and errors.
- `gui`: what the browser is told, its session, its requests, and its files.
- `text`, `lex`, `sort`, `ordmap`: strings, orders, a stable sort, and maps in key
  order.

What the library has from other crates (addresses, payment requests, keys,
hexadecimal, QR codes, compression, JSON, random bytes, the clock) stands behind
small functions whose contracts say what is relied on.

`app/` is the program around it: files, SQLite, locks and the web server. The
codec of signed memos and the wallet engine are not part of this crate. The
library takes the codec as a function from the text of a memo to the operation
that it asks for and the identity that signed it; the program takes what a codec
has found from a file, and reads the files of a wallet that another program
scans.

A read gives three things: the snapshot up to the cutoff below which no memo is
missing, the confirmed state, which also holds the confirmed memos above it, and
the recent memos themselves, those that are not confirmed yet among them.

`tests/` runs the library with the real crates behind it.
