# aios

The verified core of the AIOS runtime layer, written in Verus.

- `policy` — the deny-by-default policy engine; `PolicyEngine::evaluate` is
  specified exactly by `policy_verdict`, and the `law_*` proof functions state
  its security properties.
- `safety` — the safety monitor: bounded action history, loop, burst and
  read-then-send detection, specified by `expected_anomalies` and
  `next_history`.
- `memory` — scoped agent memory (store, recall, forget, clear a scope).
- `registry`, `validation`, `executor` — the tool broker: the tool catalog
  (a map from tool identifier to definition), schema-based input validation
  and execution records.

The tool catalog is kept in a `Vec` whose identifiers are distinct (a type
invariant), and its view is the map from identifier to definition. A std
`HashMap` keyed by `String` was not tried: Verus proves little through string
keys of `HashMap`, while the `Vec` form lets every operation be specified
exactly against the map view.

Input validation checks, against the tool's input schema, that the input is an
object, that every member named by `required` is present, and that each
member whose type `properties.<name>.type` declares (one of `object`, `array`,
`string`, `number`, `integer`, `boolean`, `null`) has that type. Other
JSON Schema keywords, a `type` given as a list, and nested schemas are not
checked.
- `model_runtime` — model catalog and selection that prefers local models.
- `json`, `text`, `search`, `clock` — JSON values, string predicates, first
  occurrence search and UTC instants.

`app/` holds the broker's executable and the serializable forms of the
library's types (serde, thiserror, chrono), with conversions both ways.
