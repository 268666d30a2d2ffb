# ghrls

Downloads the latest release asset of a GitHub repository whose name matches a
regular expression, optionally extracting it (`.tar.gz`, `.tgz`, `.zip`), or
prints the latest release tag.

- `src/` is the library, with its contracts and proofs: archive formats and entry
  selection (`archive`), the complete selection plan for a zip archive read
  from its bytes (`plan`), where results land (`destination`, `output`, `path`),
  the GitHub API address and asset selection (`github`), the option rules of the
  `download` command (`download`), error messages (`error`) and text helpers
  (`text`).
- `app/` is the command-line program: argument parsing, HTTP requests, reading
  archives and writing files, each step handing plain values to the library.
- `tests/` exercises the library.
