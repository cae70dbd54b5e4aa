# coop_ofd

A server for a group that shares expenses: members scan the QR codes of their
receipts, the server fetches each receipt from the fiscal-data operator that holds
it, and everyone ticks what they took. The server keeps the balances: who owes whom.

The library (`src/`) is verified with Verus. It holds:

- `ledger`, `pay`, `bill`, `stats`: balances and transactions; direct payments and
  equal splits; splitting a receipt by who took which items; adding up the recorded
  transactions, the receipts paid, the comments used and the goods bought.
- `object`, `fields`, `receipt`: fiscal-data records (tagged values, nested items)
  and what the pages ask of them.
- `qr`, `scrape`, `ofd`: reading QR codes and receipt pages, choosing the operator
  to ask, what to ask it and how to read its answers. Of those answers, the Такском
  receipt page and the fields around the documents (addresses, identifiers, kinds) are
  read; the fiscal documents themselves that ofd.ru, Астрал, Private1 and the tax
  service's app send are not, since reading them is the work of the project's own
  `fiscal-data` crate, whose source is not part of this repository.
- `text`, `num`, `hex`, `form`, `filters`, `clock`, `shopping`: the text handling
  these rest on.

The server itself (`app/`) is ordinary Rust: the HTTP routes, files and network
requests around the library.
