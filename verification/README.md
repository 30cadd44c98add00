# canopy

Canopy creates temporary integration branches: starting from a base (the
repository's default branch unless one is given), it merges the requested tips
one after another, skips the tips whose merge conflicts, and points a target
branch at the result.

The project is written in Verus. `src/` is the verified library; `app/` is the
command-line program around it.

- `src/object.rs`: object names and resolved tips.
- `src/ancestry.rs`: deciding ancestry from a merge-base search, and the table
  of ancestry answers among the tips.
- `src/dedup.rs`: removing tips that another tip already contains, with its
  laws (order kept, no kept tip contains another, nothing lost, idempotence).
- `src/report.rs`: progress lines and errors, and their exact text.
- `src/session.rs`: the whole workflow as a state machine. Each step takes the
  outcome of one repository operation and yields the lines to print and the next
  operation; its invariant and laws are proved over the specification `next`.
- `src/runs.rs`: whole runs of the workflow (the states and outputs that a
  sequence of outcomes produces from the start) and the laws over them: the
  target-exists refusal, reading only until merging begins, the single final
  reference update, no update on error, the whole result (from the base and
  the resolved tips, through the ancestry table and deduplication, to the merge
  chain and the trees written for it, that the target is set to), the final
  report, and the bound on merge-base searches.
- `src/cli.rs`: the parsed command line and `run`, which starts the workflow.
- `app/main.rs`: parses arguments with clap, performs each operation with gix,
  prints the lines.
