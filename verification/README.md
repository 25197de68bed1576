# dhcp_parser

Verified analysis of DHCP traffic captures.

- `src/text.rs` — decimal and hexadecimal rendering of integers, addresses and durations.
- `src/dhcp.rs` — parsing of DHCP messages (fixed BOOTP header, magic cookie, RFC 2132 options).
- `src/analyzer.rs` — the per-transaction client state machine and anomaly detection
  (rogue servers, DISCOVER floods, lease and address conflicts, NAKs, timeouts).
- `src/root_cause.rs` — correlation of the event timeline into root causes, a verdict and an action plan.
- `src/capture.rs` — capture-format detection, the whole-capture pipeline and its summary counts.
- `src/laws.rs` — properties that hold for all inputs.
- `src/history.rs` — what the analyzer reports for a packet, stated over the history of packets
  fed to a fresh analyzer (rogue servers, lease conflicts, lease timeouts).
- `app/lib.rs` — the WebAssembly entry point and JSON-shaped report types.

Times inside the library are integers (seconds and microseconds); the
front end turns them into floating-point seconds for the JSON report.

## Capture files

Decoding capture files (libpcap and pcapng records) and IPv4/UDP headers is
outside this project: this code base holds no decoders for them, so there is
nothing of theirs to verify. `capture::capture_format` tells the two container
formats apart from the first four bytes; the caller decodes the packets and
hands each one, with its timestamp and (for a UDP datagram between DHCP ports)
its addresses and payload, to `capture::analyze_capture`.
