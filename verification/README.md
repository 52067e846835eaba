# bid_review

Compliance review of public-procurement bid documents, as a library whose
behaviour is stated in contracts and proved with Verus.

## Layout

- `src/` — the verified library.
  - Document structure: `document` (extracted pages, blocks, tables),
    `headings` (heading kinds, page noise, inline headings), `candidates`
    (heading candidates and their filters), `section_body`, `body_text`,
    `sectionize` (the section tree and its counts), `tables` (`|`-tables,
    tables split by a page break, Markdown), `injection` (tables into
    sections), `orphans` (blocks no section owns), `layout` (layout text
    clean-up).
  - Review support: `types`, `risk_taxonomy`, `timeline` (the
    `calculate_timeline` tool), `read_section`, `rag`, `desensitize`,
    `knowledge`, `coordination`, `routing` (clauses to agents),
    `legal_verify`, `links` (clauses linked across agents),
    `dynamic_agents`, `blind_spot`, `review_loop` (turn notes, search
    limits, tier changes, prompts and citations), `review_step` (the clause
    review loop as a state machine), `chat`, `tools`, `api`.
  - Foundations: `text`, `numbers`, `patterns` (regular expressions).
  - `laws`: properties that relate several functions.
- `tests/` — tests of the library.
- `app/` — the command-line program: PDF extraction, JSON in and out, file
  I/O, the model and tool calls of the clause review, whose every step
  `review_step` decides, and the document review that runs several agents in turn and
  asks `routing`, `legal_verify`, `blind_spot`, `links` and
  `dynamic_agents` for its decisions; the steps that weigh a finding's
  floating-point confidence (merging, the legal-verify verdict, debate,
  sorting) stay there; each finding is then placed in the document (page,
  section path, context and source blocks) by `read_section`; and the chat about a document, whose turns and
  answer check come from `chat`.
