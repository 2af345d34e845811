# mp

Preview Markdown in the terminal: `mp <file.md>` renders a Markdown file with ANSI
colors when stdout is a terminal (plain text otherwise) and writes it to stdout. On a
terminal the output adapts to its width: paragraphs, headings, list items and block
quotes reflow at word boundaries, and tables shrink their widest columns to fit.

The library in `src/` is verified with Verus; `app/` holds the command-line program
around it (argument parsing, file and terminal I/O).

## Layout of `src/`

| Module | What it holds |
| ------ | ------------- |
| `ast`, `text` | The document model: blocks, inline nodes, and text that is borrowed, owned or stored inline. |
| `events`, `builder`, `source`, `parse_error` | Parsing: pulldown-cmark's event stream read into the library's own events and assembled into blocks, with blank-line detection between blocks. What each event does to the open nodes is specified exactly, and so is the assembly of a whole stream; the stream itself is the one pulldown-cmark reads from the source, named as a function of the source. |
| `options`, `theme`, `style`, `sgr` | Render options, the solarized palette, text styles and their ANSI escape sequences. |
| `inlines`, `plain`, `list`, `layout`, `renderer` | What each block and inline node renders to (as byte-sequence specifications) and the renderer that writes it. |
| `wrap`, `wrap_lines`, `writer`, `utf8`, `bytes` | Word wrapping, the lines it writes and why each fits, line prefixes, width measurement and byte-level helpers. |
| `table`, `table_render`, `table_lines`, `grid` | Table layout (column sizing and shrinking), box-drawing output, and the width every table line takes up. |
| `syntax` | Syntax highlighting of fenced code blocks through syntect and two-face: the highlighter's per-line results, collected into styled ranges by verified code. |
| `preview`, `cli` | The preview use case and the command-line decisions (color mode, width limit). |

Each rendering function is specified by the exact bytes it appends, so the proofs
cover the layout rules themselves: separators between blocks, list marker columns,
quote bars, table borders and alignment, and the column-shrinking rules of tables.
Beyond the exact contracts, proved laws state what holds of every input:

- Output that rendered anything ends with exactly one newline, and what came before
  its trailing newlines is kept.
- Word wrapping keeps every non-blank byte in order, writes no tab, and every line it
  writes fits the width limit as wrapping counts columns (one column per separator
  space, the visible width of each whole word, the width of each grapheme cluster of
  a word too long for a line), unless the line holds a single cluster wider than the
  limit.
- In plain mode every line of a table, border or row, takes up the table's total
  width (one column per border glyph and padding space, the visible width of each
  cell line) whenever each wrapped cell line fits its column, and that total is
  within the width limit when the columns at their minimum widths fit it.
- A line-prefixing writer gives the same output however its input is split.
- Code blocks are never wrapped, and in plain mode rendering writes no escape byte
  that the document did not hold.

Widths come from `unicode-width`, whose width of a string is not in general the sum
of the widths of its parts; the width claims above are therefore stated over the
widths wrapping and table layout count, not over the width of a whole line
re-measured afterwards.
