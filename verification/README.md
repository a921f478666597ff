# sauron (verified core)

The decisions of a virtual-DOM front end, verified with Verus:

- `src/dom.rs` turns a virtual node tree (`src/vdom.rs`, whose elements keep
  attributes and listeners by name, ascending) into the ordered DOM
  operations that build it, handing out listener identifiers from a counter.
  `src/plan_laws.rs` proves that those identifiers are fresh, also across
  successive hand-outs, that text nodes are never appended side by side (a
  separator comment stands between them), and that the operations are well
  nested; `src/listener_laws.rs` proves which element gets which identifier
  and which listeners go to its list.
- `src/events.rs` turns what a browser event carries into the virtual event a
  listener's callback receives.
- `src/custom_element.rs` decides what the custom-element attribute generates
  and why it rejects an item; `src/macro_input.rs` reads the attribute's
  argument and the annotated item from their tokens with syn and hands the
  result to that decision, together with what it read.
- `src/component.rs` and `src/view.rs` hold the component, container and view
  traits with their default methods; `src/decimal.rs` renders identifiers.

`app/` performs the browser calls (web-sys, wasm-bindgen), patches the DOM
after a diff of the vdom crate, and writes the attribute's tokens (quote).
