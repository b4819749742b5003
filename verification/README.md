# chromist

A library for driving Chrome and Chromium over the DevTools Protocol, whose
logic is written in Verus and proved against its contracts.

`src/` is the verified library:

- `pdl`, `pdl_render`, `resolver`, `dep` — the PDL parser, its canonical
  text with the proof that parsing that text gives the protocol back, include
  resolution, and the dependency order of domains;
- `codegen`, `naming`, `generator` — the Rust code generator's plan: the
  domain index and enum types gathered from all files, the Rust type and
  field of each protocol type and property, constructors, builders, primitive
  aliases, event enums, and the names of generated items;
- `config`, `launch`, `discovery`, `options`, `page_setup`, `context` — the
  launch configuration and its builder, the browser's command line,
  executable detection, stderr handling while it starts,
  finding the WebSocket endpoint of a running browser, context options, what
  a context applies to each new page, which targets belong to a context and
  what closing it sends;
- `handler`, `dispatch`, `event_bus`, `session`, `types`, `call_order`,
  `error` — what the connection's task does with each answer, event, request, timer tick and the
  end of the connection; which waiting caller each answer, timeout or
  closed-connection error is meant for (handing it over through the
  channel is trusted, not proved); which subscribers, in which order, an
  event is offered to, and what the bus keeps and counts for the outcome of
  each offer (the outcome itself comes from the channel, unproved); the
  order of call ids; and the wire types and errors;
- `frame_tree`, `accessibility`, `dom`, `evaluate`, `page`, `input` — page
  state: frames and execution contexts, the accessibility tree, DOM helpers,
  script results, and the key events that typing sends;
- `har`, `recorder`, `api` — HTTP archives: formatting, answering requests
  from an archive, and the bookkeeping of recording.
- `text`, `num`, `keyed` — string, number and keyed-list helpers with their
  specifications.

`app/` holds what Verus does not check: the code generator's token output,
file and process I/O, floating-point geometry and timings, and the serde
forms of the library's types. `tests/` exercises the library from outside.
