# semcode

A library for semantic search over a source tree: what is indexed about its
functions and types, who calls whom (also through function pointers), and what
the archives of a mailing list and the history of a repository say.

The library is written in Verus. Its functions are proved to do what their
contracts say, and they do not panic.

* `src/` is the verified library.
  * Texts, orders and names: `text`, `order`, `names`, `keyed`, `chunks`, `paths`,
    `hexadecimal`, `json`, `patterns`, `dates`, `colors`.
  * The index: `types`, `rows`, `stored`, `tables`, `sql`, `inserts`, `index_state`,
    `revision`, `overlay`, `duplicates`, `reports`.
  * Calls: `selection`, `call_rows`, `resolution`, `row_order`, `aggregate`, `chained`, `collect`,
    `callchain`, `callchain_text`, `answers`, `chain_answers`, `references`.
  * Searches: `grep`, `lore`, `lore_search`, `lore_insert`, `commits`.
  * Source files: `file_extensions`, `syntax`, `file_survey`.
  * The terminal: `display`, `help`.
* `app/` fetches and stores rows, asks the repository and prints. Tables are kept
  in a Lance database.
* `tests/` runs the library on examples.

What the library takes on trust is marked in `src/`: each such item names the
outside function it stands for and says what is claimed of it.
