# local_git_ops

An offline git repository health dashboard: code churn, churn×size
maintenance hotspots, bus factor, bug clusters, commit velocity and
firefighting frequency for a local repository.

- `src/` is the library, verified with Verus: sanitization of
  repository-derived text (`sanitize`), path and author filters (`filter`,
  `pattern`), history windowing and commit classification (`history`), line
  counting (`loc`), report aggregation and trend classification (`metrics`),
  command-line decisions (`cli`), presentation decisions (`render`), and the
  Markdown and HTML reports (`export`, `markdown_export`, `html_export`),
  each specified character for character.
  `text` holds the character-sequence helpers and their lemmas.
- `app/` is the command-line program: option parsing, reading the repository
  with libgit2, hotspot scores, ownership shares and bar widths (floating
  point: the scores go to the library as ranking keys, and all three as
  formatted cells of the reports), the terminal dashboard, and writing the
  report files.
- `tests/` exercises the library.
