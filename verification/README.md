# conformance-check

Conformance checks for agent-state repositories: an append-only JSONL event
log (`state/events.jsonl`) that folds, with `yoagent-state`, into a typed
graph, kept in git. Seven checks each return a report of failures and notes:

1. envelope round-trip
2. replay determinism (and snapshot integrity under `snapshots/`)
3. vocabulary (baseline kinds and relations, or those of `.agent/packs/*.json`)
4. append-only in git
5. causation integrity
6. restore (manifest, identity, and the fixture's graph facts)
7. domain↔ops consistency

## Layout

- `src/` is the library, verified with Verus. Each check is a function whose
  `ensures` gives its report exactly, as a spec function of the inputs; each
  check's module also states, as a proof function, exactly when it passes
  (`lemma_line_passes`, `lemma_replay_passes`, `lemma_vocabulary_passes`,
  `lemma_append_only_passes`, `lemma_causation_passes`, `lemma_restore_passes`
  and `lemma_restore_fixture_passes`, `lemma_pairing_passes`).
  Calls into `serde_json`, `sha2` and `yoagent-state` stand behind small
  trusted wrappers whose contracts say what the call returns, or name it.
- `app/main.rs` is the command-line front end: it reads the repository (files
  and `git`, file contents as raw bytes), hands the library plain values, and
  prints the reports.
- `tests/` exercises the library on concrete logs and histories.

```sh
conformance-check <agent-repo> [--fixture]
```
