# oxlens-sfu

A selective forwarding unit for conferences and push-to-talk, verified with Verus.

Every participant has two connections, one to publish and one to receive, on one
UDP port. Rooms are either conferences, in which everybody hears everybody, with
or without simulcast, or push-to-talk rooms, in which the floor decides whose
media is relayed.

## Layout

`src/` is the verified library.

| module | what it holds |
|---|---|
| `room` | the floor, the streams of a push-to-talk room, participants, rooms, the hub |
| `signaling` | messages, sessions, the handlers of requests and what they bring about |
| `transport` | demultiplexing, STUN, ICE, SDP, DTLS keys, SRTP |
| `transport::udp` | binding requests, media in and out, RTCP, retransmission, reports |
| `tasks` | floor timers and the removal of those who are gone |
| `metrics`, `agg_logger` | counts, and events that are counted instead of logged |
| `media` | the routing table of tracks |
| `config`, `startup`, `error` | settings, start-up, errors |
| `wire`, `text`, `clock`, `random` | bytes, text, time, chance |

A handler changes the hub and returns its reply together with a list of effects:
messages for others, packets to queue, key frames to ask for. `app/` performs them.
It is the server around the library: sockets, WebSocket sessions, the DTLS
handshake, JSON, logging, timers, and the jitter, which is a floating-point number.

Functions whose name begins with `law_` state what holds of several operations
together.

## Limits

In the TWCC mode, which is the default, the header extension for transport-wide
congestion control is offered, but arrival times are not recorded and no feedback on
them is sent: publishers get no bandwidth feedback. In the REMB mode they are told
once a second how much they may send.

## What is not proved

The contracts of the functions that call other crates are believed: `dashmap`,
`webrtc_srtp`, `dtls`, `hmac` with `sha1`, `sha2`, `crc32fast`, `getrandom`, `uuid`,
and the clocks, string conversions and hasher of `std`. The comment above each says
what it claims. Where a result takes pages to describe, such as a hash or an
encrypted packet, it has a name, and contracts speak of that name.
