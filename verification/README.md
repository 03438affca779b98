# thar

A terminal viewer for HTTP archive (HAR) files: a table of the requests
and one of the pages, in tabs, with rich text, syntax colouring of JSON and
markup, key/value lists and text wrapping.

## Layout

- `src/` is the library, verified with Verus. Every public function states
  its result in its contract, over spec functions and views:
  - text: `rich_text`, `rich_parse` (the `[b]…[/b]` markup), `rich_layout`,
    `rich_wrap`, `plain_text`, `plain_wrap`, `wrap` (word wrapping),
    `char_width`, `text`, `describe` (how events, keys and errors are shown);
  - colouring: `colorize` (JSON), `colorize_sgml` (HTML/XML), `styles`,
    `color`, `ansi`, `style`, `mime_types`;
  - widgets: `table`, `property_list`, `rich_text_view`, `tabs`,
    `request_view`, `text_editor`, `viewer` (the whole application's state
    and decisions), `widget`, `message` (messages between widgets, and their
    delivery step by step), `rect`, `event`, `input` (decoding of terminal
    input);
  - drawing: `draw` and `widget_draw` produce the list of terminal
    operations (`DrawOp`) that draw a widget, cropped to the window;
  - archive fields: `fields` (column names, titles, parsing of `--*-columns`
    options, a stable sort by several fields), `schema`, `parse_error`.
- `app/` is the program around it: reading the archive with serde, the
  command line with clap, the terminal (raw mode, reading input, executing
  the drawing operations) and the text of table cells, which comes from
  floating-point numbers, times and URLs.
- `tests/` runs the library on concrete inputs.

Laws that the library keeps are public proof functions, for instance
`plain_text::parse_then_write`, `wrap::wraps_out_when_wide`,
`rich_text::diff_then_apply`, `rich_text::append_text_ends_plain`,
`wrap::wrapping_keeps_visible_text`, `table::columns_fit_widest_cell`,
`table::table_layout_sizes`, `colorize::json_pieces_follow_on`,
`colorize_sgml::sgml_pieces_follow_on`, `table::selection_stays_on_rows`,
`tabs::mnemonic_twice` and the `*_name_round_trip` functions of `fields`.
