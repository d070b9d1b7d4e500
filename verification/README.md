# dhcp4r

A DHCPv4 and DHCPv6 server: wire formats, address pools, the `dhcp.conf`
configuration file, and the decisions of both services. The library is written
in Verus: its functions state what they return or change and are proved to do
so. What the clock of the machine shows, and what becomes of bytes that were
sent, is outside of what they state.

- `src/` is the verified library. It computes on plain values and never touches
  a socket or a file.
  - `wire`, `text`, `number`, `net`, `clock`, `calendar`: bytes, text, numbers,
    addresses and time.
  - `options`, `packet`: DHCPv4 options and packets.
  - `dhcpv6`: DHCPv6 options and datagrams.
  - `server`: which options a DHCPv4 reply carries, and where it goes.
  - `leases`, `pool6`: who holds which address, and until when.
  - `service4`, `service6`: what becomes of a packet.
  - `config`: the configuration file.
  - `monitor`: the request log.
- `app/` is the program: sockets, files and logging around the library.
- `tests/` runs the library on concrete values.

What the library promises as a whole is stated in the public proof functions at
the end of each module: that what is encoded decodes to itself, that a live
lease of another client is never touched, that an offer can be taken up, and so
on.

What is not proved is marked where it stands: the behaviour of a few functions
of the standard library (`text`, `clock`).
