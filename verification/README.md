# mdfrier

Markdown for the terminal: text is parsed with tree-sitter-md into sections, each section
becomes lines wrapped for a fixed width, with markdown symbols mapped (or stripped) so that
styles can be applied afterwards. Around the renderer sit the pieces of a terminal viewer:
styles and escape sequences, OSC 8 links, big headers, the document of sections, the cursor
over links and search matches, key bindings and the handling of parser events.

The library in `src/` is verified with Verus: every function states what it returns in its
contract, over spec functions that describe the result directly, and the properties that tie
functions together are proved as lemmas next to them.

- `syntax`, `blocks`, `inline`, `markdown`: the syntax trees, the sections of a document,
  the spans of paragraphs, bare URLs and line breaks.
- `lines`, `wrap`, `table`, `document`, `frier`: decorators, wrapping, tables, the blank
  lines between sections, and the lines of a whole document.
- `link_tracker`, `link`, `osc8`, `style`, `big_text`: links across wrapped lines, terminal
  styles and escape sequences.
- `viewer`, `keys`, `events`, `model`, `config`, `box_table`, `line_blocks`, `pipeline`: the
  viewer's document, cursor, keys, events and its own block and table layouts.
- `search`, `highlight`, `fontpicker`, `terminal_font`, `jobs`: search matches by display
  column, the cursor's marks and highlights, the font picker's keys, which terminal to ask
  for its font, and which work parsed sections ask for (images, headers, code) and where an
  image comes from.

Wrapped lines are proved to fit the width where no span has to be broken
(`wrap::wrapped_lines_fit_the_width`); a broken span's parts come from textwrap, whose
optimal-fit algorithm can leave a line longer than the width.

`app/` is a small command-line viewer built on the library: it prints a rendered file, or shows
it in a pager.
