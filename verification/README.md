# graphchan_frontend

The logic of the Graphchan desktop client and of its MCP tool server, written in Verus and
proved against its contracts.

## Layout

- `src/` — the verified library:
  - `models` — the records exchanged with the node;
  - `thread`, `navigation`, `rings`, `hierarchy`, `timeline`, `body` — reading a thread:
    replies, keyboard navigation (Tab, the vim-style cursors, the arrow keys over the layout on
    screen, Enter, Escape), the rings of the radial view, the layers of the hierarchical view,
    the time bins of the chronological view, and the pieces of a post body;
  - `catalog`, `thread_view`, `state`, `blocking`, `compose`, `forms`, `importer`, `downloads`,
    `refresh` — what the screens keep and how each answer from the node changes it;
  - `net`, `urls` — base and request addresses, the bearer credential, the live event stream
    and the pause before reconnecting;
  - `mcp` — the tool catalog, how a tool call becomes a request to the node, and the replies;
  - `order`, `text`, `reactions`, `files` — shared pieces.
- `tests/` — tests on concrete values.
- `app/` — the MCP server over standard input and output, the HTTP clients and the event-stream
  consumer. Everything that reads or sends goes through it and calls the library for each
  decision.

## What is not here

The windowed client itself (the egui/eframe drawing, the force-directed and radial geometry,
the colour theme, images and media) is not part of this crate: it is drawing and floating-point
geometry. The decisions that the drawing code made (navigation, layouts' orders, refresh timing,
the state changes of each answer) are in `src/`.
