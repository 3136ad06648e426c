# office2pdf

The verified core of an office-document-to-PDF converter, written in Verus.

- `src/` is the library. Its functions are verified, except a few trusted
  wrappers that make the outside calls (`String::push`, Unicode normalisation,
  upper-casing, and the `quick-xml` reader and unescaping), whose contracts
  are stated in their doc comments:
  - `ir` — the document model (paragraphs, runs, lists, tables, headers and
    footers, drawing shapes); lengths are exact decimals (`Decimal`).
  - `docx_props`, `styles`, `style_map` — run, paragraph and style
    properties of a word-processing document and the styles they resolve to,
    tab stops included.
  - `numbering`, `lists`, `heading` — numbering definitions, list grouping
    and numbering patterns, multilevel heading counters.
  - `sections`, `hf_docx`, `page`, `flow_page` — package relationships,
    header/footer parts, page setup, and the flow page of a section.
  - `hf` — spreadsheet header/footer format strings.
  - `shape`, `xml` — drawing shapes scanned from document XML read with
    `quick-xml`.
  - `typst_text`, `tabs`, `nowrap`, `paragraph` — Typst markup for runs and
    paragraphs.
  - `text` — string and number helpers.
- `app/` holds what is left around the library: reading the package, turning
  `docx-rs` structures into the library's plain inputs, and the
  floating-point line-height formulas.
- `tests/` exercises the library on concrete values.

Laws of the library stand in `src/` as public proof functions named `law_*`.
