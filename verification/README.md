# slugout

The game logic of *Cats With Bats*, a top-down arena game in which cats throw and bat balls
of yarn at each other, as a Verus-verified library, with the engine code around it.

- `src/` — the verified library:
  - `grid`, `search_costs`, `pathfinding`: the tile grid of the arena and the A* search over
    it (every route it returns walks from tile to neighbouring tile from start to goal; it
    finds one whenever the goal is a tile corner; between tile corners the route is a
    shortest one; it always terminates).
  - `behavior_tree`: the NPC behaviour tree and its one-tick evaluation.
  - `npc`, `basic_npc`: the NPCs' decisions (state selection, sidestepping, hiding spots,
    aim error).
  - `movement`, `combat`, `swing`, `powerups`: collision responses, ball hits, the player's
    bat and the power-ups.
  - `aes_framing`, `rsa_keys`, `text`, `handshake`: the lobby's authentication handshake,
    client and server, over AES-128 blocks and RSA (the `aes`, `rsa`, `rand` and
    `serde_json` crates do the cryptography and the JSON).
  - `lobby`, `game_messages`, `decimal`, `menu`: player lists and names, end of game, the
    game's update messages, and the console and menu input.
- `tests/` — tests of the library on concrete values.
- `app/` — the `bevy` program: windows, sprites, sockets and the floating-point physics,
  which hand the library plain values and act on its answers.
