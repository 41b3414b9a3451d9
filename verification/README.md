# braillepcap

A terminal IPv4 traffic visualiser: each /16 network is a dot of a Braille
grid (first octet down, second octet across), coloured by how many packets
it saw over a short hold window.

The crate is split in two:

- `src/` is the verified library, written in Verus. Every function there
  carries a contract, and the properties that span functions (the activity
  window's bookkeeping, the CIDR and unicast filters, the zoom window) are
  stated and proved as public proof functions.
  - `packet/`: link-layer offsets per platform, IPv4 parsing, CIDR, port and
    source filters, and the capture's per-second bookkeeping.
  - `activity.rs`: the sliding window of buckets and its running totals, the
    zoom target grammar and the detail view's cells.
  - `screen.rs`: packets-per-second meters, the per-registry tallies and
    their top five, and the view reset.
  - `view.rs`: the views and how key presses move between them.
  - `ui.rs`: colours (through `ratatui` styles) and Braille dot patterns.
  - `rir.rs`, `interface.rs`, `path.rs`, `text.rs`, `tally.rs`: registry
    lookup, interface and path checks, text grammars, tallies and their sums.
- `app/` is the program around it: argument parsing, the capture thread,
  the terminal loop, and the file system and network interface lookups.

`tests/` exercises the library on concrete values.
