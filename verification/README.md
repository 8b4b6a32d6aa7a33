# ebpf-dns-cache

Watches the DNS answers that reach a network interface. A kernel program (XDP) parses every
response and reports each address that it finds; this program logs the answers, keeps the captured
packets, and shows a live feed and the reverse cache (address → name) in the terminal.

```
ebpf-dns-cache [-v] <iface>      log answers until Ctrl-C
ebpf-dns-cache --tui <iface>     the interactive interface
```

An answer is logged as

```
[txid=9174 answer=0] api.example.com A 93.184.216.34
```

and captured packets are written to `payloads.json`.

## Layout

- `src/` is the library: everything that is decided or computed, verified with Verus. Each public
  function says in its `ensures` what it returns; what holds across functions stands in public proof
  functions.
  - `wire`, `layout`, `records`: the records that the kernel side writes, byte by byte.
  - `event`, `snapshot`, `capture`: reading those records; `addr`, `text`, `payload`, `clock`: how
    their contents are written out.
  - `feed`, `reverse`, `order`, `sort`, `filter`: the rows of both panels, how they compare, which
    are listed, and in what order.
  - `app`, `keys`, `table`, `screen`, `areas`: the state of the interface, what keys and events do
    to it, and what is drawn; `laws`: what holds of it as a whole.
  - `args`, `worker`: the command line, and what the worker beside the interface does next.
- `tests/` run the library on concrete values.
- `app/` is the program around it: terminal, clocks, files, threads and the kernel side. The
  skeleton of the kernel program is generated as `app/bpf/dns_parser.skel.rs`.
