# ishell

The decisions of a tabbed SSH client, written in Verus and proved against their contracts: what its
windows do when something is clicked, how files move between servers, how a session survives a lost
connection, and what an AI agent may do over the local control channel.

- `src/` is the library. Every function states what it returns or changes; what holds of several
  functions together is stated in public proof functions, most of them next to what they speak of,
  the longer ones in the modules whose names end in `_laws`.
- `tests/` runs the library on plain values.
- `app/` is the program around it: the socket, the workers' channels, files and drawing.

The library keeps time in milliseconds that its caller passes in, and never reads a clock. Commands to
a session's worker are appended to the session's link; the program hands them on. Replies to agents
are returned, each with the connection that it belongs to.

What is trusted: the system's random source, the writing of OpenSSH keys, and two functions of the
standard library. Each is declared with what is believed of it, in `keys.rs`, `text.rs` and
`quoting.rs`.
