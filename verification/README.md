# battleship_server

A two-player battleship server over TCP, with its rules verified in Verus.

Clients send one message per line:

| message | meaning |
|---|---|
| `J\|<name>\|<board>` | join with a 10x10 board, written row by row |
| `S\|<name>\|<x>\|<y>` | shoot at column `x`, row `y` of the player `name` |
| anything else | is passed on to everyone |

The server greets with `G` and announces `J|<name>` (a player), `N|<name>` (who is
next), `M|<name>` (a miss) and `N|<name>|GameOver` (the winner).

- `src/` is the verified library.
  - `text`: characters, strings and decimal numbers
  - `config`: host and port
  - `board`: the board and its drawing
  - `protocol`: reading and writing messages
  - `registry`: the clients that have joined
  - `game`: what a message does
  - `session`: what a connection does on each event
- `app/` is the program around it: sockets, the broadcast channel and the console.
- `tests/` runs the library.

`SERVER_HOST` and `SERVER_PORT` set the address; the default is `127.0.0.1:8080`.
