# loadwright

Container-native load balancing and autoscaling: a reverse proxy that spreads
requests over the replicas of a service, and a control loop that adds and removes
replicas by a schedule and by live metrics.

The decisions are written in [Verus](https://github.com/verus-lang/verus): every
function in `src/` has a contract, and Verus proves it.

| Module | What it holds |
| --- | --- |
| `config` | the service definition and the rules it has to meet |
| `schedule` | times of day, and the floor that a schedule sets |
| `scaling` | the scaling decision on given numbers |
| `metrics`, `metrics_laws` | requests in flight, latencies and request rates per backend |
| `store` | the concurrent map that holds the metrics, behind stated contracts |
| `figures` | sums and sorting |
| `real64` | comparing and rounding 64-bit floating-point numbers, by their bits |
| `proxy` | picking a backend, what is forwarded, what is answered |
| `health`, `startup` | waiting for instances, and bringing a service up |
| `autoscaler`, `autoscaler_laws` | cooldown, floor, and which instance goes |
| `limits` | limits on CPU time and memory, read from text |
| `orchestrator` | containers to create, and instances among those listed |
| `text` | decimal numbers as text |

`app/` is the program around it: command line, TOML, Docker, HTTP and the clock.
Functions whose names start with `law_` state what holds of the library as a whole.

What is not proved is what the outside crates do: the contracts of the calls into
`dashmap` (in `store`) and `chrono` (in `autoscaler`) are stated above each call.
