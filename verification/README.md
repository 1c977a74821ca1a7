# rkvm

A keyboard and a mouse shared across machines. The machine that has them runs the
server, which captures their events and passes them on to the machine that a
keyboard shortcut selects. On the other machines a client injects them; on Windows
it can do so as a service, also before anybody has logged on.

`src/` is the library. It decides which machine gets which event, what the two
sides say to each other, and what a client does with what it is told. On Windows
it also decides what is injected; on Linux the kernel does, through `rkvm-input`,
and an event that cannot be written ends the client. Verus proves that the library
decides as its contracts say:

- `event`, `keymap`, `hid`, `inject`: keys and axes, and what Windows makes of them
- `repeat`, `shared`, `device`, `writer`, `recorder`: what a device holds and repeats
- `fleet`: what holds of all devices on one desktop
- `chord`, `held_inputs`, `batch`, `slots`, `destinations`, `registry`, `server`:
  which machine gets which event, and what has to be let up where
- `suppression`: that nobody sees a shortcut that is not passed on
- `update`, `handshake`, `outbox`: what the two sides tell each other
- `client`, `updates`, `connection`, `protocol`: what the client does with it
- `service`, `command_line`: the Windows service and its desktop agents
- `error`: failures

Slots of clients and devices come from the `slab` crate. What the library takes
for granted of it stands in `slots`.

`app/` holds the programs around the library: network, TLS, configuration, logging
and the calls into the operating systems. It also needs the crates `rkvm-net`
(messages on the wire) and `rkvm-input` (capture and injection on Linux).

`tests/` runs the library on concrete values.
