# schc_coreconf

A verified library for managed SCHC contexts: a core and a device hold the same
set of compression rules, and the core inspects, changes and duplicates rules
over the compressed link itself. Every function of `src/`, save the wrappers named
below, is proved against its contract by Verus.

## Layout

| Path | What it holds |
| --- | --- |
| `src/` | The verified library. |
| `tests/` | Tests of the library on concrete values. |
| `app/` | Four programs around the library: core endpoint, device endpoint, application data client and server. |

The library is layered:

- Values: `text`, `number`, `json`, `cbor`, `base64`, `coap`, `sort`, `sid`, `path`.
- Rules: `rule_id`, `rule`, `rule_text`, `selector`, `allocation`, `policy`.
- Contexts: `codec`, `normal_form`, `context`, `context_error`, `application_rules`, `transaction`.
- Link: `packet`, `link`, `link_types`, `exchange`, `report`, `report_text`, `breakdown`,
  `packet_loop`.
- Management: `request`, `inspection`, `update_command`, `target`, `leaf`, `service`,
  `duplicate_*`, `flow`, `flow_change`.
- Programs: `console`, `command_outcome`, `command_flow`, `endpoint`, `options`,
  `application`, `data_command`, `data_options`.

## What is proved

The contracts say exactly when each operation succeeds, which error it gives
otherwise, and what it leaves unchanged. Beyond the single functions, public
proof functions state what holds of the library as a whole, among them:

- a candidate that replaces, changes or extends the active context is accepted only
  with the same protected rules, each unaltered;
- a reserved candidate is published once, and a backend replaces only the context
  that it last read;
- an accepted change of a target value changes that one leaf, and a duplicate
  operation that was applied publishes nothing when it comes again;
- the local context follows a rule update once, with the same datagram, and only
  after the device accepted it;
- a normalized tree holds what the given one held, every rule and entry list in
  order, and is its own normal form;
- an allocated rule identity is a free leaf of its namespace;
- protected management traffic never reaches a TUN device;
- a response is accepted only for the request that it answers.

## What is trusted

CBOR, CoAP, JSON and SHA-256 come from `ciborium`, `coap-lite`, `serde_json` and
`sha2`. Each call stands behind a small wrapper whose documentation says what is
taken on trust. The YANG model, the datastore and the SCHC codecs are asked by
`app/`, and their answers are arguments of the library's functions, which are
proved for every answer.
