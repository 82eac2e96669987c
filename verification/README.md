# md-export

Converts GitHub-flavored Markdown into a self-contained, styled HTML file
(embedded CSS, no external assets), or into a bare HTML fragment.

The library in `src/` is written in Verus and verified:

- `text`: character helpers (trimming, ASCII case folding, HTML escaping,
  decimal numerals), each stated over the `Seq<char>` view of its strings.
- `slug`: GitHub-style slugs (`slugify`) and the `-1`, `-2`, …
  disambiguation of heading anchors, which never hands out an id twice.
- `outline`: the headings of a parsed document (level, visible text, and
  the anchor comrak's `Anchorizer` derives from that text, disambiguated as
  comrak does) and the inferred title.
- `toc`: the table-of-contents `<nav>` and its depth limit.
- `theme`: color themes and the embedded stylesheet.
- `render`: the page around the body; the Markdown is parsed and formatted
  by comrak, whose results are named in the contracts.
- `laws`: properties that span functions (slugs are built character by
  character, anchors handed out are pairwise distinct, every TOC entry links
  to its heading's slug and that slug is the `id` comrak gives the heading,
  escaped text carries no markup and unescaping gives it back, page shape,
  stylesheet structure, theme-name round trips).

`app/main.rs` is the command-line program: argument parsing, reading the
input and writing the output.
