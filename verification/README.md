# prompt_library

The core of an image-prompt library, verified with Verus: how prompt
text is normalised and matched, how imports are identified and planned,
the artist dictionary and its bundled snapshot, library filters compiled
to SQL, quick edits with their undo and redo, automation rules
(conditions, actions, runs, and the header and name checks of imported
rule files, with the names imported rules take) and schema upgrades.

## Layout

- `src/` — the verified library. Each module states its behaviour in
  `requires` / `ensures` over spec functions, and proves the laws that tie
  operations together as public `lemma_*` proof functions.
  - `text`, `weight`, `prompt_tokens`: character-level text handling, the
    weight syntax of prompts, and the match keys of prompt fragments.
  - `identity`, `batches`, `schema`: import identities, batch planning,
    schema version decisions.
  - `name_index`, `artist_dictionary`, `dictionary_snapshot`: the artist
    dictionary builder, and the decompression and line splitting of the
    bundled snapshot.
  - `query`, `library_filters`, `records`: page queries, filters as SQL
    with their parameters, and the records storage returns.
  - `quick_edit`, `auto_prefix`, `candidate_tally`: quick tag, group and
    artist-prefix edits, and automatic artist prefixing.
  - `rules`, `rule_conditions`, `rule_actions`, `rule_simulation`,
    `rule_run`, `rule_transfer`: automation rules; `rule_simulation` runs
    a rule's actions on a row step by step, the caller doing the prompt
    parser's part between steps.
  - `errors`: the storage error type.
- `tests/` — tests run against the compiled library.
- `app/` — the SQLite storage layer around the library (statements,
  transactions, JSON records of rules, numeric conditions over floats).
