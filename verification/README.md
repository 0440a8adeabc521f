# ios_rs

A client for iOS devices: usbmuxd, lockdown and its services, the tunnels of recent
systems, remote pairing, RemoteXPC, DTX and test runs, and the daemon that holds tunnels
open.

`src/` is the library. Everything in it is proved with Verus: the wire formats with their
round trips, the state machines of the protocols, the decisions of the daemon, and what
each reply means. It does no I/O. What comes from outside crates (property lists, JSON,
RSA, SHA-1, the ciphers and curves of remote pairing) is called behind a few wrappers, each
of which says what is relied on.

`app/` is the program around it: sockets, TLS, files, threads, the network stack, and the
command line.

`tests/` runs the library on concrete values.
