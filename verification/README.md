# game-server

A server-authoritative runtime for multiplayer matches. The server owns identities, connections,
command order, ticks, replay evidence and restart recovery; a game supplies its deterministic rules
through the `GameSimulation` trait.

The library under `src/` is written in Verus: what each function returns or changes is stated in its
contract and proved. The program under `app/` is ordinary Rust around it: sockets, files, tasks and
timers.

## Layout of the library

| Module | Holds |
| --- | --- |
| `protocol`, `wire` | command, snapshot and welcome frames, and the bytes that they are made of |
| `control` | request and answer frames of reliable control streams, and the services behind them |
| `browser` | paths that address a match or a returning player |
| `session` | player slots, reconnect tokens, epochs and grace periods |
| `simulation`, `world` | the trait that a game implements, and a small demo game |
| `external_simulation` | a game that runs elsewhere, spoken to in frames |
| `replay`, `recovery` | the history of a match, its verification, and restart images |
| `runtime`, `evidence` | one authoritative match, and what its captured history proves |
| `host`, `host_recovery`, `host_status`, `host_transport` | many matches in one process |
| `connection`, `transport` | the decisions of a connection and of a listener |
| `settings`, `client`, `physics` | the demo server's settings, what trial clients count, and the fingerprint of a physics world |
| `ordered`, `text` | ascending lists and text |

Laws that relate several functions are the public proof functions whose names begin with `law_`.

## What is taken on trust

Every proof rests on Verus and on a few declared facts: of `String::push` and `String::push_str`, of
`std::str::from_utf8`, of the debug forms of characters and texts, and of copies of paths. Nothing is
claimed of the bytes of ring's random generator, nor of what a formatter writes. Contracts about a game hold of games that
keep the account that they give of themselves.

## Serving

The demo server reads its settings from the environment.

- `GAME_SERVER_PORT`, `GAME_SERVER_CERT_PEM`, `GAME_SERVER_KEY_PEM`: the WebTransport endpoint.
- `GAME_SERVER_SESSION_PATH`: the path of the one match, or the base path of its routes.
- `GAME_SERVER_MATCH_ID`: the name of the one match, which then has a route of its own.
- `GAME_SERVER_MATCH_IDS`: the names of many matches, separated by commas.
- `GAME_SERVER_STATUS_PORT`: where health, readiness and status of many matches are served.
- `GAME_SERVER_RECOVERY_PATH`, `GAME_SERVER_RECOVERY_DIR`: where one match, or many, survive a restart.
- `GAME_SERVER_DRAIN_GRACE_MS`: how long a shutdown lets connections end by themselves.

`netem-client` and `control-client` as the first argument start a trial client instead. The physics
adapter in `app/physics.rs` is built with the feature `physics`, where the engine is at hand.
