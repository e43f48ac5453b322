# mine_with_friends

The verified core of "mine with friends", a bitcoin-mining board game played
over signed message chains.

- `src/` is the library, verified with Verus: identifiers (`entity`), token
  ledgers (`tokens`, `map_sum`), the constant-product market maker
  (`cfmm_math`, `token_swap`), power plants and their sale (`nfts`, `sale`), scheduled events
  (`callbacks`), moves and the game board (`game_move`, `game`), the payout of
  a finished game (`payout`), text forms of numbers and names (`numfmt`,
  `strings`), the messages between host and players (`messages`), the
  gathering of players and the games being gathered (`game_init`), the host's
  choice of what to sequence next (`batching`), the checking and replay of
  the host's sequence of moves (`sequencer`, `replay`), the records of the
  contract litigator and what it tells the contract module (`litigator`,
  `simps`, `event_log`, `recompile`), and the configuration (`config`).
- `tests/` runs the library on concrete games and values.
- `app/` holds the JSON forms of the library's types and of the
  configuration, and the outer loops of the host, of the replay and of the
  litigator's engine, which hand the library plain values.
