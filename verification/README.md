# lanmap

A live LAN scanner with a terminal dashboard: it sweeps the local network
with ICMP pings, reads the ARP cache for MAC addresses and devices that block
ping, names vendors from the MAC's OUI, and shows everything in a table.

The library in `src/` holds the scanner's logic, verified with Verus:

- `ipv4` — dotted-quad parsing and formatting, CIDR networks, sweep targets,
  the `--subnet` argument (parsed with `ipnetwork`)
- `mac`, `oui` — MAC address parsing and formatting, vendor lookup
- `arp` — the ARP cache as `arp -a` (Windows, Linux) and `/proc/net/arp` list it
- `iface` — picking the network to sweep from the machine's interfaces
- `scanner` — the scan state and how probes and the ARP cache change it
- `view` — sorting, filtering, navigation and the texts of the dashboard
- `export` — the JSON export

`app/` is the program around it: ICMP with `surge-ping`, reverse DNS with
`dns-lookup`, interfaces with `network-interface`, the terminal with
`ratatui` and `crossterm`, and the `tokio` runtime.
