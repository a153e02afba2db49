# fortyone

A multiplayer 41-Rummy card game: a server that keeps games in Redis (or
in memory) and talks to players over HTTP and WebSocket, and the rules a
browser client applies to what the server sends.

- `src/` is the verified library (Verus): cards and their text form, the
  round engine (dealing, turns, scoring, the winner), the checks on
  requests and tokens, applying a player's action to a stored game, what
  each player is shown, error classification, and the client's view of a
  game and its local scoring.
- `app/` is the server around it: configuration from the environment,
  routes, JWT signing, storage, the WebSocket loops and their timers.
- `tests/` runs the library on concrete games and messages.
