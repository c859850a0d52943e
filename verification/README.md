# arachne

A pod network for Kubernetes nodes: a CNI plugin that connects containers, an agent that keeps the
routes and the service load balancing of a node in line with the cluster, and a packet path that
forwards frames, balances services and tracks connections.

The decisions are in `src/`, as functions on plain values, with contracts that Verus proves. What only
the kernel, the disk or the cluster can do is in `app/`, which asks the library what to do next and
hands it the outcome.

| module | what it decides |
| --- | --- |
| `datapath` | what becomes of a frame: which lookups, table changes and edits, and the verdict |
| `datapath::laws` | what holds of packets one after another |
| `datapath::frame_laws` | what the edits do to the bytes of a frame |
| `agent::services` | which services and backends are known, and what is written to the maps |
| `agent::service_laws` | that the maps stay in line with what is known, and what a failed write leaves |
| `agent::conntrack` | timeouts, and which idle flows are forgotten |
| `agent::conntrack_laws` | that exactly the idle flows are forgotten, each of them whole |
| `agent::endpoints` | which endpoints were left behind by pods that are gone |
| `agent::routes` | which routes lead to the pods of other nodes |
| `agent::startup` | the network configuration of the node |
| `cni` | the requests of the container runtime, addresses for containers, their interfaces |
| `bpf` | the maps shared with the kernel, where they are pinned, what writes to them come to, the counters |
| `common`, `net`, `text`, `strmap` | keys and values, addresses and networks, texts, a map of texts |

Work that alternates with decisions is a step machine: a function yields an operation, the caller
performs it and hands the outcome to `resume`, until there is a result.

Networks are parsed and enumerated by the `ipnet` crate, IPv6 addresses are read and written by the
standard library; what is believed of both stands in `net`.
