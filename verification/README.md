# Runde

The core of a small desktop program that shares a Minecraft world with friends without port
forwarding, VPNs or a public address, written in Rust and verified with Verus.

The host enters the port of the server, starts to host, and sends the ticket that appears to its
friends. They paste it in, connect, and join `localhost` in Minecraft.

## Layout

* `src/` is the verified library:
  * `tunnel`: what the tunnel is doing, and how each event on the network changes that;
  * `joining`: a joining task as a whole, from the ticket to the clients;
  * `form`, `screen`, `banner`, `clipboard`, `placement`: what the user enters and sees;
  * `ticket`, `relay`, `peer`, `env_file`: tickets, relay servers, names of peers, settings;
  * `pump`: pumping bytes from one stream to another;
  * `updater`: which release is newer, which file of it to take, how to put it in place;
  * `logs`: the archive of log files;
  * `base32`, `text`: bytes and text underneath.
* `app/` is the program around it: the window, the network, the files.
* `tests/` runs the library.

Each function's contract says what it returns. The proof functions whose names start with `law_`
say what holds of several functions together, such as that a host shows exactly the peers that are
there, that a ticket carries the host's address to the friend byte for byte, and that an update is
not offered twice.

What is trusted stands next to its use, each with a comment that says what it claims: reading a
ticket in `ticket`, reading a relay address in `relay`, the clock in `logs`, and appending a
character to a string in `text`.
