# ledger

A personal financial ledger: double-entry accounting in the terminal, kept in a
local SQLite file. The rules of the ledger are a library whose every function
is proved against its contract with Verus; the program around it reads
arguments, talks to the database and draws.

## Layout

- `src/` is the verified library.
  - `model`, `account_id`, `transaction_id`, `account_map`: accounts, entries
    and transactions, and what makes a transaction valid.
  - `decimal`, `sums`, `money`: exact amounts, their sums and how they print.
  - `time`: moments and calendar dates.
  - `book`, `summary`: balances, closes, periods and the accounting identity.
  - `reconstruct`, `shell`: the `ledger add` command of a transaction, and how
    a shell reads it.
  - `storage`: what goes into the rows of the database and what comes back.
  - `audit`, `cli`, `fiscal`: the reports, the command line and fiscal years.
  - `posting`, `commands`: what each command registers and stores, once all of
    it is valid, and how a script of commands rebuilds the books.
  - `tui`, `tui_app`, `tui_view`: the state of the interface, what each key
    does to it, and what it shows.
  - `chars`, `text`: characters and strings.
- `app/` is the program: arguments, SQLite, the terminal and the clipboard.
- `tests/` runs the library.

## What is proved

Every transaction that is newly made has at least two entries and sums to
zero; one that is read from the database is taken as it was stored. Nothing is registered for a transaction that is refused, and a
registered account keeps its class. Account ids in plain form, whose characters
are their own lower case, are read back as they were from a row or a command,
and so are the transactions that speak of them; every id that comes from ASCII
text is in plain form. Dates of the years 0 to 9999 are read back too, so that
the script that a book is written as adds its transactions again.
The accounting identity holds of every set of balanced transactions, and an
audit report reconciles, as long as no sum has to be rounded. A close leaves
every income and expense account at zero. Public proof functions whose names
begin with `law_` state such facts; the rest stand in the contracts of the
functions.

## What is trusted

Calls into `rust_decimal`, `jiff`, `ulid`, `ratatui` and a few functions of the
standard library stand behind small functions marked `external_body`, each with
a comment that says what is claimed of the call.
