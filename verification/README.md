# netmon

Flow-telemetry collection and DDoS detection, verified with Verus.

`src/` is the library. Its functions are verified against their
contracts, except a few small wrappers around the standard library whose
contracts are trusted rather than proved (each is marked
`#[verifier::external_body]` and says in its doc comment what it
claims):

- clock readings: `instant_now`, `nanos_since`, `wall_reading` (`clock`),
  with `std::time::Instant` declared as an outside type;
- the text of an I/O error, `io_error_text` (`common`), with
  `std::io::Error` declared as an outside type;
- hashing with std's `DefaultHasher`: `hash_detection` (`event`) and
  `hash_exporter` (`window`), whose results are named, not spelled out;
- a per-process random seed, `fresh_seed` (`seed`), of which nothing is
  claimed;
- `Debug` renderings and string building: `string_from_chars`,
  `debug_quoted`, `debug_duration`, `debug_char` (`render`).

The modules:

- addresses, sampling rates, normalized flows and their counters
  (`net`, `sampling`, `flow`, `counters`, `normalize`);
- traffic-direction classification over a tenant-aware prefix registry
  (`trie`, `registry`, `direction`, `prefix_list`);
- aggregation into bounded per-dimension maps with inactivity expiry and
  rate windows (`bounded_map`, `aggregator`, `rate_window`);
- detection: windowed snapshots, policies and their documents, threshold
  evaluation, the per-scope state machine and its table, policy
  precedence, events, sinks and the engine that ties them together
  (`window`, `input`, `policy`, `document`, `config`, `evaluate`, `state`,
  `table`, `precedence`, `event`, `sink`, `metrics`, `clock`, `engine`,
  `pipeline`);
- exporter sequence tracking (`exporter`) and the metrics endpoint's
  request check (`scrape`).

Laws that relate several functions stand as public proof functions whose
names begin with `law_`.

`app/` is the collector binary around the library: configuration from
the environment, the JSON form of policy documents (serde), Prometheus
metrics and their HTTP endpoint, logging, and the UDP receive loop.

`tests/` exercises the library through its public interface.
