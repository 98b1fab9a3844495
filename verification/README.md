# mdbook_plugins

Preprocessors and renderers for mdbook, served by one binary, with their
logic written in Verus and proved against its contracts.

- `src/` is the verified library: the text passes of every preprocessor
  (KaTeX, admonitions, alerts, diagrams, table of contents, emoji codes,
  tabs, embeds, previews…), the HTML preparation and outline of the PDF
  renderer, the search index, the AsciiDoc and office text conversions, and
  the command-line dispatch. Calls into outside crates (pulldown-cmark,
  regex, scraper, svgbob, emojis, sha2, flate2, base64, uuid) go through
  small trusted wrappers whose contracts are stated next to them.
- `app/` is the binary: it reads the book from mdbook, runs the external
  tools (Node for KaTeX, the pikchr library, Chrome, curl), reads and writes
  files, and hands plain values to the library.
- `tests/` runs the library on concrete inputs.
