# addrsyncd

A daemon for Linux and Android that keeps one policy routing rule for every address of the
machine's interfaces. It follows the kernel's address announcements, compares its rules with the
addresses now and then, removes what an earlier process left behind, and removes its own rules
when it stops.

- `src/` is the library: command line, configuration, log lines, netlink messages, and the
  daemon's decisions. Every item is verified with Verus. The library does no input or output; it
  is told what happened and at which time, and says what to do next.
- `app/` is the program around it: sockets, files, signals, processes, clocks.
- `tests/` runs the library on concrete values, among them a whole life of the daemon against a
  small model of the kernel's rule table.

## Where to start

- `src/daemon/state.rs` holds what the daemon keeps, and the model that contracts speak of.
- `src/daemon/maintenance.rs` and `src/daemon/event_loop.rs` say what each event changes.
- `src/daemon/consistency.rs` proves what every event keeps, and `src/daemon/convergence.rs`
  what the rules come to in the end.
- `src/netlink/codec.rs` and `src/netlink/rule.rs` hold the message formats; what is written
  reads back.

## What is taken on trust

Hash tables come from `rustc_hash` (`src/fx.rs`). A few functions of the standard library have
no specification of their own: appending a character to a text, reading bytes as UTF-8
(`src/text.rs`), reading the text of an address (`src/ip_key.rs`), the machine's byte order
(`src/bytes.rs`) and sorting (`src/ip_set.rs`). Their contracts are believed; each says what it
claims.
