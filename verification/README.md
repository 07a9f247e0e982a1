# stormlb

The Storm stack's router and pre-cluster control-plane load balancer, with its
rules verified by Verus.

- **Router**: a Host-header demux over Gateway API HTTPRoutes. It reads one
  request head, picks the backend from `Host`, replays the head and then is a
  wire. Routing is per connection.
- **VIP half**: a health-checked L4 proxy for the kube-api VIP, owned through
  VRRP (L2) or advertised through BGP (L3).
- **Suites** (`short`, `medium`, `long`): acceptance tests that drive a running
  router through the API and its port.

## Layout

- `src/` is the library. Everything in it is verified: each function against
  its contract, and the laws that hold across functions as public proof
  functions at the end of each file.
  - `router`, `pool`, `health`, `vrrp`, `vip`, `bgp`, `config`, `net`: the two
    halves.
  - `suite/`: the bytes, the decisions and the verdicts of the suites.
  - `text`, `json`: what the others are written with.
- `tests/` runs the library.
- `app/` is the program around it: sockets, clocks, processes, the TOML file
  and the apiserver. Called as `stormlb-test` it runs the suites.

## What is trusted

Calls out of the library stand behind items whose contracts Verus takes as
given; each says so in its doc comment. They are in `text` (UTF-8 decoding and
quoting by std), `json` (parsing and printing by `serde_json`) and `suite::long`
(std's sort). The names `lossy_text`, `quoted`, `json_bytes`, `value_tree` and
`json_text` stand for what those calls return.

Numbers that the supervisor or the apiserver writes as decimal fractions are
read by `app/`, and so is the rank of a quantile: the library has no floating
point.
