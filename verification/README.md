# mini-redis

A small Redis server: the RESP wire format, the `GET`, `SET`, `PUBLISH`,
`SUBSCRIBE`, `UNSUBSCRIBE` and `PING` commands, and the shared key/value
and pub/sub state with key expiration.

The library under `src/` is written in Verus and verified:

- `frame.rs`: the `Frame` type, and `Frame::check` / `Frame::parse`, which
  find out whether a whole frame is buffered and build it, against a
  specification of the byte format.
- `connection.rs`: the byte buffers of a connection, the encoding of frames
  (`write_frame`), and the law that a written frame reads back as itself.
- `parse.rs`: the cursor over the entries of a command frame.
- `cmd/`: one file per command (reading its arguments, applying it, and the
  frame a client sends for it), `Command::from_frame` / `Command::apply`,
  the subscribed state of a connection (`cmd/subscribe.rs`), and the law
  that what a client sends the server reads back as the same command
  (`cmd/request.rs`).
- `db.rs`: the shared state (entries with their expirations, channels
  with their senders), with its type invariant and the laws of `set`,
  `get`, purging and subscribing.
- `channel.rs`: the broadcast channels of pub/sub, and the record of a
  message handed to a channel's sender.
- `server.rs`: how a connection handles a frame, the connection limit, and
  the back-off of the accept loop.
- `decimal.rs`, `text.rs`: numbers and strings as they appear on the wire.

Time is counted in milliseconds, as an integer, from an instant the caller
fixes.

`app/` is the server program around the library: sockets, the Tokio tasks,
the lock around the shared state, the timer of the purge task, signals and
logging. `tests/` exercises the library at the byte level.
