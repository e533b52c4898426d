# huddle_core

The core of huddle, a chat for small groups: rooms with end-to-end encryption, chats between two
with post-quantum keys, files, contacts and verification by short codes.

The library in `src/` is written in Verus. Every function states what it returns or changes, and
Verus proves it. It does no input or output: it keeps the state of a session in memory, takes what
the network and the disk say as plain values, and answers with a list of effects that the caller
carries out in order.

- `text`, `bytes`, `strmap`, `sums`, `clock`: small building blocks.
- `config`: the configuration file.
- `identity`: the identity of a user, and its fingerprint.
- `crypto`: passphrases, seed phrases, keys of chats between two, Megolm sessions, short codes. What
  comes from other crates is gathered in `crypto::primitives` and at the top of the modules that use
  it.
- `files`: file names, encrypted files, files in chunks.
- `app`: the state of a session (`AppHandle`) and what becomes of it. `app::handlers` takes every
  message that arrives in a room, `app::network` everything that the network says, `app::ticker`
  the time that passes, `app::relay_link` what becomes of the connection to the relay; the other
  modules are what a user can ask for.

What holds of the library as a whole stands next to the functions it is about, as proof functions
whose names begin with `law_`.

`tests/` runs the library with the real cryptography. `app/` is the program around it: files, the
clock, the tasks in the background, and the traits through which a database, a network and a relay
are plugged in.
