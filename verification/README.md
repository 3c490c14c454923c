# mido

A terminal Markdown viewer's core, written in Verus: the logic is executable Rust whose
behaviour is stated in `requires` / `ensures` contracts and proved.

## Layout

- `src/` — the verified library.
  - `markdown/` — the document model, the parser's tree builder over pulldown-cmark's
    events, front matter, and GitHub-style heading anchors.
  - `render/` — word wrapping, inline pieces, tables and column fitting, code highlighting,
    diagrams, badges, themes (with chains of themes that extend one another) and their
    styles.
  - `app/` — the viewer's decisions: its answer to each key (modes, panes, scrolling,
    search, the contents list), what each frame shows (reading position, rows, overflow
    marks, the link under the cursor, the scrollbar), the outline card and files sidebar
    items, key bindings, panel placement, the outline, search, the file finder and image
    placement.
  - `project/` — the file tree of a folder of Markdown files.
  - `config.rs`, `cli.rs`, `outline.rs`, `text.rs` — settings, arguments, the heading tree
    and the text helpers the rest is stated over.
- `tests/` — tests run against the compiled library.
- `app/` — the program around it: the command line, reading the document, the settings and
  theme files (the `extends` chain is followed file by file and read by the library), and
  the `themes` listing. It does not draw to the terminal.

Calls into outside crates (pulldown-cmark, unicode-width, nucleo-matcher, two-face, emojis,
mmdflux, mermaid-text, ratatui-core) sit behind small trusted wrappers whose doc comments say
what their contracts claim; everything built on them is proved.
