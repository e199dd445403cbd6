# ggfm

The rules of a local game server: save slots, logins, the commands of players and the
messages that carry them. Every function of the library has a contract that Verus proves.

## What always holds

- A slot has one number and one user id, and keeps both for as long as it exists.
- Everything a player owns belongs to one slot. A request for one slot leaves the others as
  they were.
- A switch of slots waits for the next login. No request of an open login changes its slot.
- A request is done completely or not at all. A repeated request is answered as it was
  recorded, and nothing is done again.
- A request that is not from the open login of its slot is refused.

These are stated and proved in `src/laws.rs`. Laws about one part stand with that part.

## Layout

- `src/store.rs`, `src/slots.rs`, `src/requests.rs`, `src/queries.rs`: the store and what can
  be asked of it. `src/table.rs` and `src/names.rs` hold its rows in order.
- `src/player.rs`, `src/rows.rs`, `src/fresh.rs`: the state of one player. `src/order.rs` and
  `src/kept.rs`: the order of what it holds, which every command keeps.
- `src/save.rs`, `src/shop.rs`, `src/rewards.rs`, `src/claims.rs`, `src/pass.rs`,
  `src/mail.rs`, `src/music.rs`, `src/followers.rs`, `src/quests.rs`, `src/ch3.rs`,
  `src/profile.rs`: the commands.
- `src/snapshot.rs`: everything about a player at one moment.
- `src/wire.rs`, `src/transport.rs`, `src/registry.rs`, `src/envelope.rs`: messages, their text
  form, their schema and the calls they carry.
- `src/number.rs`, `src/magnitude.rs`, `src/rounding.rs`: binary numbers with a fraction, on
  their bits. `src/shortest.rs` writes them in decimals, with the numbers of any size of
  `src/natural.rs`.
- `src/policy.rs`, `src/consume_reward.rs`, `src/master.rs`: the rules of the game and its
  tables.
- `src/startup.rs`, `src/banner.rs`, `src/boot_log.rs`, `src/transfer.rs`, `src/messages.rs`:
  starting up, moving saves and what is said about errors.
- `app/`: files, threads, the clock, the command line and the functions for Android.
- `tests/`: the library from outside.
