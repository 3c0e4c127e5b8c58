# rgb_wallet

The rules of an RGB wallet, verified with Verus, and a wallet that works by them.

- `src/` decides. It says which outputs may carry assets and how many new ones to
  create, chooses the inputs of a transfer, composes and commits its transitions,
  tells how transfers move from one status to the next, and gives the rows to store.
  Each function takes what was read and returns what is to be done. Calls into the
  bitcoin and RGB libraries that only compute are made here.
- `app/` acts. It talks to the electrum server, the RGB node and the consignment
  proxy, builds and signs transactions with the bitcoin wallet, reads and writes
  files, and keeps the rows in a database. The database, the proxy and the way the
  RGB node is run are supplied by the host, through the traits in `app/services.rs`.
- `tests/` runs the rules with the real libraries.

| Module of `src/`     | What it is about                                            |
|----------------------|-------------------------------------------------------------|
| `wallet`             | The wallet, its keys and its directory                      |
| `wallet::online`     | Going online and checking consistency                       |
| `wallet::outputs`    | The outputs that may carry assets                           |
| `wallet::funding`    | Creating outputs, draining the wallet                       |
| `wallet::issue`      | Issuing assets                                              |
| `wallet::receive`    | Blinding outputs, receiving consignments                    |
| `wallet::send`       | Choosing inputs, recording transfers                        |
| `wallet::compose`    | Putting transfers into a PSBT                               |
| `wallet::prepare`    | The steps of preparing a PSBT                               |
| `wallet::sending`    | The two halves of a send operation                          |
| `wallet::settle`     | Answers of the recipients, confirmations                    |
| `wallet::transfers`  | Refreshing, failing and deleting transfers                  |
| `wallet::listing`    | Listing assets, transfers and outputs                       |
| `database`           | Rows, lookups, rows to store                                |
| `chain`, `rgb_data`  | Bitcoin and RGB data                                        |
| `keys`, `scalars`    | Keys, blinding factors                                      |
| `text`, `seqs`       | Texts and sequences                                         |

`chrono` is named in `Cargo.toml` only to hold its version: with a later one, `psbt` would
be built on `descriptors` 0.9, which needs another release of `bitcoin` than the other crates.
