# engine

A chess engine whose rules and bookkeeping are proved with Verus.

`src/` is the verified library:

- `bitboard`, `coord`, `piece`, `color`, `precomp`, `magics`: squares, sets of squares, pieces
  and the attack patterns of each piece, each stated as a function of the square.
- `board`: the position, making and unmaking moves (with the incremental Zobrist key),
  checks, FEN reading and writing (`utils::fen`).
- `utils::text`: text as characters: words, trimming and integer literals as the standard
  library reads them.
- `move_gen`: move generation (pins, checks and castling included), stated as the
  generator computes each kind of move; that the moves are legal is not proved.
- `eval`: the static evaluation, term by term.
- `search`: the transposition table, repetition table, move ordering and what a search
  reports; `search::searcher` is the alpha-beta search itself (iterative deepening,
  aspiration windows, late move reductions, check extensions, quiescence search), proved to
  give back the board it searched and to score mate and stalemate, with the clock read
  through a wrapper of `std::time::Instant`.
- `game`, `result`: how a game ends.
- `uci`: move names and the `position` and `go` commands of the UCI protocol.
- `external_uci`: the lines another UCI engine writes, read into messages, and what is known
  of that engine after each of them.

`app/` holds what runs around the library: the game loop, the UCI front end on stdin and
stdout, and the driver of another engine as a child process.
