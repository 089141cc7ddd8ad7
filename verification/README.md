# cooking_with_wasm

A browser slide deck about WebAssembly, written with Leptos. The logic that
decides what the page shows is a library verified with Verus (`src/`):

- `navigation`: the deck, its shown slide, and what the arrow keys, the
  Prev/Next buttons and the slider do to it;
- `input`: which key or slider value asks for which move;
- `decimal`: decimal text of integers, rendered and parsed;
- `text`: splitting the terminal transcript into lines;
- `widgets`: the CSS class of a code block and the id of the terminal element.

`app/` holds the Leptos components, the browser events and the JavaScript
calls; `tests/` runs the library on concrete values.
