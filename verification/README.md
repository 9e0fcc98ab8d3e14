# streamfly

A stream-oriented publish/subscribe framework over QUIC.

- `src/` is the verified core (Verus): packet framing (`frame`), control
  messages and the request/acknowledgement rule (`msg`), identifiers (`id`),
  a text-keyed table (`registry`), the client's subscriptions (`client`) and
  the server's routing table between publishers and subscribers (`broker`).
- `app/` is the transport around it: QUIC connections and streams
  (s2n-quic), MessagePack encoding (rmp-serde), tasks and channels (tokio,
  async-channel), and the server program.
- `tests/` runs the core on concrete values.
