# cotuong

Xiangqi (Chinese chess, *cờ tướng*) rules engine, search and online-play
server logic, written in Verus.

- `src/` — the library, verified by Verus:
  - `board`, `movegen`, `rules`: the board, pseudo-legal move generation per
    piece, check and the flying-general rule, fully legal moves;
  - `search`: material/position evaluation and fail-soft alpha-beta, proved
    equal to plain negamax;
  - `game`: the browser-facing game object (play, undo, AI move, status);
  - `room`, `hub`, `proto`: the server's game rooms and the decisions of a
    player's WebSocket session;
  - `auth`, `handlers`, `session`, `oauth`, `mail`, `state`, `api`, `db`,
    `backup`, `util`: account validation, password hashing and tokens,
    cookies, the OAuth callback check, mail links, configuration, storage
    URLs and backup names.
- `tests/` — tests of the library.
- `app/` — the server program: HTTP routes, WebSockets, SQLite, SMTP, Google
  OAuth and S3 backup. It carries out the I/O; the rules of the game and the
  decisions on sessions, rooms and accounts are the library's.
