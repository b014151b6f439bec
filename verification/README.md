# amt

Automatic Multicast Tunneling (AMT, RFC 7450): a relay that takes multicast from
the network to unicast gateways, and a gateway that brings it into a local
network.

- `src/` is the library. It parses and builds the messages and packets, keeps
  membership state, and decides what a relay or a gateway does next. It is
  written in Verus: a function states in its contract what it returns, and Verus
  proves it. The few that hand on a random number, or what the platform offers,
  have nothing to state; what is done with such a value is stated by functions
  that take it. The laws that relate several functions are the public proof
  functions whose names begin with `law_`.
- `app/` is the program around the library: arguments, the configuration file,
  sockets, raw capture and publication, threads, and the metrics file.
- `tests/` runs the library.

The library has no clock, no socket and no file. The program hands in datagrams,
the time and what the system answered, and carries out the steps that come back.

## Layout of the library

| Modules | What they hold |
| --- | --- |
| `bytes`, `checksum`, `net`, `time`, `text`, `address_text`, `ordered`, `wording` | bytes, addresses, time, text, ordered sets and maps, errors in words |
| `protocol`, `ip`, `ecn`, `mtu`, `query`, `membership`, `pmtu` | messages and packets |
| `state` | which endpoint wants which groups and sources |
| `relay`, `gateway`, `exchange` | the two ends of the protocol, and what holds between them |
| `dns`, `driad`, `lookup`, `candidates` | relay discovery in DNS |
| `local_membership`, `downstream` | the local network of a gateway |
| `relay_daemon`, `activity`, `forwarding`, `relay_feedback`, `rate_limit` | the relay daemon |
| `static_gateway`, `gateway_daemon`, `desired`, `retry` | the gateway daemon with one relay |
| `driad_gateway`, `driad_tunnel`, `driad_sends`, `probe_queue` | the gateway daemon that discovers a relay for each source |
| `config`, `cli`, `daemon`, `relay_options`, `gateway_options`, `gateway_setup` | set-up |
| `metrics`, `metrics_flags`, `logs` | counters and reports |
| `mac`, `random` | what comes from cryptography and from the operating system |

## What is taken on trust

A few functions of other crates are called under contracts that Verus does not
check: the HMAC of `hmac` and `sha2`, the random bytes of `getrandom`, the JSON
objects of `serde_json`, the raw publications of `mctx-core`, and, of the
standard library, `String::from_utf8` and the text of a `Duration`. Each of them
stands behind an item whose comment says what is claimed.
