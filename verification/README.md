# carbide_telemetry

A verified Rust library with two parts.

*Inventory metrics.* A snapshot of a rack inventory lists racks and the endpoints of the components
in them. The library merges the endpoints of a component, finds the ingestion session of each rack
and the NVLink domain that its switches agree on, and publishes the result as Prometheus series. A
new snapshot replaces the one before it, so the number of series is bounded by one snapshot.

*Connection bookkeeping.* The decisions of an HTTP accept loop: what follows each outcome, which
failures are retried at once, what is reported of a connection that ended, and how many connections
are open.

| module      | what it holds                                                            |
|-------------|--------------------------------------------------------------------------|
| `endpoint`  | racks and endpoints as a snapshot gives them                             |
| `text`      | decimal text of integers, the order of texts                             |
| `rows`      | rows of label values, their order, sorted lists                          |
| `series`    | the series of racks, rack domains and components, with their labels      |
| `snapshot`  | which series a snapshot publishes                                        |
| `gauges`    | the Prometheus collectors; everything taken on trust about them is here  |
| `keys`      | the hash of label values by which a sample is found                      |
| `publish`   | bringing a collector from one set of series to another                   |
| `inventory` | the metrics as a whole                                                   |
| `clock`     | the time of day                                                          |
| `sizes`     | sizes of sets                                                            |
| `server`    | the accept loop and its connections                                      |

Every executable function has a contract. Public proof functions named `law_...` state what holds of
several functions together. `app/` performs the network I/O around `server`, and logs what `inventory` reports.

Floating-point values are not modelled: a sample's value is the bits of a floating-point number, named
by the seconds and nanoseconds that it was made from.
