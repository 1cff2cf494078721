# event_rule

Detection rules for event records, verified with Verus.

A rule is a YAML document. Under `detection` it names selections, and a `condition` that
combines them:

```yaml
detection:
    selection1:
        Channel: System
        EventID:
            - 7040
            - 7041
    selection2:
        param1|startswith: Windows
    condition: selection1 and not selection2 | count() by Computer > 3
```

- A hash asks for all of its entries, an array for one of its items.
- A value is a regular expression that has to match all of the value in the event record; null
  asks for a value that is missing or empty.
- `min_length`, `regexes` and `whitelist` below a key, and the options `|startswith`,
  `|endswith` and `|contains` behind it, compare in other ways.
- In a condition `and` binds more tightly than `or`, and parentheses group. What stands behind
  `|` is an aggregation condition; it is parsed and kept. A rule with one selection needs no
  condition.

## Layout

- `src/` is the library. `rule` sets rules up and applies them, `selection` and `matcher` hold
  the conditions and comparisons, `condition`, `grammar` and `token` compile condition
  expressions, and `aggregation` compiles aggregation conditions. `pattern` is where the `regex`
  crate is called: what is believed of it without proof is stated there. The modules that end in
  `_laws` state and prove what holds of several functions together.
- `app/` takes documents of `yaml_rust` and records of `serde_json`, and reads the files that
  rules take lists from.
- `tests/` runs the library.
