# oatie

Operational transform on rich-text documents, verified with Verus.

A document is a tree of groups (paragraphs, list items, carets, ...) and
styled text. Edits are operations: a deletion, then an insertion. The
library applies operations to documents, composes operations, brings them
to a normal form, and transforms concurrent operations against each other
so that both orders of application end in one document.

The functions that build spans place their elements, so what they return
is merged (applying a deletion leaves the parts of the document it does not
reach as they were); where the inputs are merged at every level (inside
groups too), so is the result, and such a span is fixed by its atoms
(`lemma_doc_canonical_deep`, `lemma_del_canonical_deep`,
`lemma_add_canonical_deep`). The laws on atoms therefore carry over to
documents (`transform_apply_documents`, `compose_apply_documents`).

Layout:

- `src/doc.rs`, `src/rtf.rs`: documents, deletions, insertions and their
  meaning as sequences of atoms; the rich-text schema.
- `src/place.rs`, `src/writer.rs`, `src/stepper.rs`, `src/stream.rs`:
  building and walking spans; merged (canonical) spans.
- `src/apply.rs`: applying deletions, insertions and operations.
- `src/compose.rs`, `src/compose_add.rs`, `src/compose_op.rs`, `src/laws.rs`:
  composition and its laws.
- `src/transform.rs`, `src/convergence.rs`: transforming deletions.
- `src/transform_add.rs`, `src/exchange.rs`: an insertion against a deletion.
- `src/transform_ins.rs`: insertions against each other, whole operations,
  and convergence.
- `src/normalize.rs`, `src/validate.rs`, `src/parse.rs`, `src/random.rs`:
  normal forms, document validation, debug layout, random edits.
- `app/`: serialization (serde, RON, JSON) and debug printing.
