# game_client

Client-side relay of a networked tic-tac-toe game, verified with Verus.

- `src/command.rs`: the command kinds and their one-byte codes.
- `src/wire.rs`: big-endian numbers and the request packets sent to the game server.
- `src/parse.rs`: the command lines that players type (`create`, `connect N`, `move X Y`).
- `src/render.rs`: decimal text and the text shown for a board update.
- `src/session.rs`: what a connection does with a typed line, the id counters, the login answer.
- `src/router.rs`: the table that routes the server's updates to player connections.
- `app/main.rs`: sockets, threads, the async runtime and the DynamoDB calls.
