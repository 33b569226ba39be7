# fridge_dao

A small DAO that decides together how to spend a shared vault of stable coins.
Members hold balances in the vault, file proposals with a price, and vote for them
during a voting period. After the period the admin has the winner chosen: a vote
weighs the square root of the voter's balance, the best score is paid out of the vault (every balance
shrinks in proportion), and a tie waits for the admin to settle it. A second program,
the mint, holds the vault, admits and expels members, and pays the winning price.

The decisions of both programs are verified with Verus in `src/`:

- `key`: 32-byte addresses and the list operations the programs use on them.
- `dao`: the DAO program's state (`state`), error codes (`error`), voting periods and
  the choice of a winner (`voting`), proposals, votes, ties and the hand-over of the
  winner (`proposals`), membership and balances (`members`, `removal`), and the
  properties that relate several instructions (`laws`).
- `mint`: the mint program's state, error codes, instructions (`ops`) and laws.
- `spl`: the calls into the token programs' libraries (token account layouts, the
  token programs' ids and associated token addresses), each with the contract it is
  trusted to meet, and the raw accounts that instructions hand over.

`app/` holds what runs around them on chain: loading and storing the programs' own
accounts, the clock, token transfers, events, calls between the two programs, and the square root
that turns a balance into a voting weight. `tests/` runs the library on examples.
