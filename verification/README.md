# dipspp

The verified core of the Dips++ game server (the Deep Dip 2 climbing
leaderboard). The library in `src/` is written in Verus. Its functions have
contracts that Verus proves, except a few marked `#[verifier::external_body]`:
thin wrappers around std's number parsing and `String::push`, `hex::decode` and
`uuid`, whose contracts are taken on trust from those libraries' documented
behaviour.

- `context_flags`: packing of the game's fifteen scene flags into one integer
  and back, and the "official context" check built on it.
- `wire`, `router`: the frame format of the game protocol, the message kinds
  and their type bytes, and the player context.
- `version`, `session`: the plugin version gate and the decisions a player's
  session makes (which reports count, when to push map updates, secret
  assets, the player manager's bookkeeping); `read_loop`: one step of a
  player's read loop, from request to new state and actions.
- `cache_util`: the time-based cache behind the map leaderboards.
- `clean_db`: the offline analysis of reported contexts (classification,
  timelines, ping matching, map segments).
- `queries`, `ids`, `donations`, `web`: what the database queries, the HTTP
  front end and the fundraiser scraper decide around their I/O.
- `text`, `consts`: character-level helpers and shared identifiers.

`app/` holds the test server binary (a TCP server that exchanges numbers),
the serde forms of the protocol messages with their framed socket I/O, and
the lock-guarded cache around `InnerCache`. The production server, the HTTP
API and the database analysis tools are not part of it. `tests/` holds the
tests.
