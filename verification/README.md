# cbx

A terminal explorer for CBOR data, including CBOR embedded in other bytes.
The logic is a library verified with Verus; a thin program drives a
terminal around it.

## Layout

- `src/` — the verified library.
  - `cbor_parser.rs`: the CBOR decoder, on bytes, with the ranges of every
    item; `value.rs`: the decoded value and the `ciborium` call that checks
    a whole item.
  - `scanner.rs`: finding runs of CBOR items in arbitrary bytes, scoring and
    sorting them; the laws that every reported item parses where it starts
    and that sorting is a stable ordering of the same chunks.
  - `nodes.rs`, `cbor_tree.rs`: the display tree built from parsed items,
    flattening, expanding and collapsing, and the laws about what is shown.
  - `app.rs`, `search.rs`, `zoom.rs`: the application state and its
    operations: scanning modes, sorting, selection kept in step between the
    tree and the hex view, search, go-to-offset, zooming.
  - `ui/`: what each key and mouse event does, stated per popup and view,
    with checked entry points for callers that cannot prove preconditions.
  - `theme.rs`, `display.rs`, `text.rs`, `util.rs`, `size.rs`: colours and
    the colouring of the hex view, value formatting, text and number
    helpers, size parsing.
  - `browser.rs`: for a terminal in a web page, the keys by the names the
    page reports, and the escape sequences that draw screen cells.
- `app/` — the program: arguments, file reading, the settings file, the
  terminal loop and all drawing (ratatui and crossterm).
- `tests/` — tests run against the compiled library.
