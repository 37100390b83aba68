# netty

Message passing between a server and its clients over interchangeable transports.

A server accepts connections through one or more transports at once. A client has one transport.
Messages travel on numbered channels, and a channel says whether its messages may be lost.

`src/` is the library: the bytes on the wire, the tables of connections, and what a server, a client
and each of their transports do with what arrives and with what is to be sent. Verus proves it against
the contracts of its functions. `src/session.rs` states what the two sides can rely on from each other.

`app/` drives the library: it owns the sockets, the tasks, the timers and the queues between them, and
carries out the actions that the library hands back.

`tests/` runs the library on given values.
