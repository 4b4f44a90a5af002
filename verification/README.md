# uTURN

The core of a single-port TURN relay for WebRTC, verified with Verus.

All clients share one relay address, so traffic between two clients cannot be
told apart by where it is sent. It is routed by the ICE ufrag in the USERNAME of
STUN checks; traffic to other peers follows RFC 5766.

## Layout

- `src/` is the library, without any I/O. It takes a datagram and where it came
  from, and gives back the effects that the caller is to carry out: datagrams to
  send and activity timers to touch.
  - `demux/` tells packets apart and parses STUN, RTP and ChannelData.
  - `lookup/` holds the allocations with their indices, and the rate limiter.
  - `turn/` authenticates and answers STUN and TURN requests.
  - `relay/` decides where media goes.
  - `server.rs` puts them together; `accounting.rs` states what holds of the
    whole.
- `app/` is the program: arguments, the UDP socket, and the timers.
- `tests/` runs the library.

In each part `model.rs` or `rules.rs` says what the code does as mathematical
functions, which the contracts refer to, and `laws.rs` proves what follows from
them: for instance that a client's data and ICE checks go to the client they are
meant for and to no other, that a refused request changes nothing, and that no
address has more allocations than its quota. The one thing that a client sends
and several others can get is a STUN response: it names no one, so it goes to
every client that permits the IP it came from.

## What is trusted

The maps of `dashmap` (`src/lookup/maps.rs`), MD5 and HMAC-SHA1 (`md5`, `hmac`
and `sha1`, in `src/turn/auth.rs`), random bytes from `rand`, and the clocks and
the UTF-8 decoder of the standard library. Each is called through a small
function whose contract says what is relied on.
