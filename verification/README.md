# akai-net

A hub that spreads one language model over several workers. Workers connect to
the hub, are ranked by their VRAM, get a share of the model's layers and are
chained up into a pipeline; users talk to the hub over HTTP.

The decisions are a library in `src/`, verified with Verus. The sockets, the
clock, the environment, the HTTP clients and the rendering of JSON are an
ordinary program in `app/`.

| Module | What it decides |
|---|---|
| `score`, `pipeline` | the ranking of the workers, their layers, the chain |
| `roster`, `idmap` | the list of workers, maps by identifier |
| `hub`, `session`, `laws` | what the hub remembers and what each message does to it |
| `frame`, `message`, `worker` | messages on the wire, and a worker's answers |
| `http`, `server`, `api`, `auth`, `reply` | requests, who may do what, and the replies |
| `duo`, `wireguard` | the requests to Duo and to the tunnel's manager, and what their replies lead to |
| `settings`, `text`, `json`, `narrow`, `hash`, `chance` | what the others are built from |

Single- and double-precision numbers are kept as bit patterns. The ranking
multiplies them as the processor does, and that is proved too.

The functions marked `external_body` call other crates or the standard
library; their contracts are taken on trust.
