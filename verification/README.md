# moblin-assistant

A server for the Moblin remote control protocol. Streamers connect by WebSocket, prove
that they know the password, and get the chat messages of their Twitch channel and YouTube
stream. A streamer that nothing is kept for gets hardcoded messages first.

- `src/` is the library, verified with Verus: the protocol's messages, authentication,
  what is kept for each streamer, and how chat messages are cut into segments.
  `src/model.rs` says what the assistant is and what happens to it; `src/laws.rs` says
  what holds of it as a whole.
- `app/` is the server: the sockets, the clock, JSON, and the connections to Twitch and
  YouTube.
- `tests/` runs the library.

Start the server with a password:

```bash
moblin-assistant --password my-secure-password --port 2345
```
