# rusty-ircd

A small IRC daemon. Its protocol core is a library written in Verus, with
contracts over mathematical models and proofs of its laws; a thin program
around it does the networking.

## Layout

- `src/` — the verified library
  - `text.rs`: string helpers (searching, splitting, decimal numbers, string order)
  - `irc/rfc_defs.rs`: the RFC 2812 token grammar (nicks, users, hosts, channels, tag keys)
  - `irc/tags.rs`: IRCv3 message tags: parsing, escaping, assembling
  - `irc/prefix.rs`, `irc/message.rs`: prefixes and tagged protocol lines
  - `irc/reply.rs`: numeric replies and the splitting of over-long replies
  - `irc/chan.rs`: channels: members in nick order, topics, join/part/notices
  - `irc/command.rs`, `irc/error.rs`, `irc/err_defs.rs`, `irc/rpl_defs.rs`
  - `parser.rs`: a reader for untagged lines that tells hosts apart
  - `buffer.rs`, `client_io.rs`: fixed-size line buffers
  - `names.rs`: the namespace (each name bound at most once)
  - `clock.rs`: readings of the wall clock
  - `server.rs`: the server state and its decisions: the `NICK`/`USER`
    handshake, nick changes, `PRIVMSG`/`NOTICE`
  - `scratch.rs`: small experiments
- `tests/` — tests of the library
- `app/` — the program: TCP and TLS listeners, one reader and one writer task
  per connection; it hands each line to `Core::handle_line` and sends what
  comes back.
