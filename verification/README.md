# unpk, verified core

`unpk` unpacks any archive (tar and compressed tarballs, zip, 7z, rar) with
the system's tools, and drops a common root directory so that an archive is
always extracted into one directory beside it.

- `src/` is the verified library (Verus):
  - `format.rs`: the archive format from the file's leading bytes;
  - `listing.rs`: the entries named by a tool's listing output, the `7z -slt`
    listing, and the archive's common root;
  - `backend.rs`: the `Extractor` trait and the four tool backends, with the
    exact command lines they run;
  - `paths.rs`: the extraction directory, the archive's stem, path joining,
    the scratch directory, and the law that dropping the root keeps every
    entry in its place;
  - `plan.rs`: the extraction plan: whether to ask before overwriting, the
    tool's command line, and the scratch directory used when the root is
    dropped by moving;
  - `cli.rs`: the command-line parser as a state machine, the answer to the
    overwrite question, and the dry-run report;
  - `text.rs`: character-level helpers (trimming, decimal digits).
- `app/main.rs` runs the program: it reads arguments, files and tool output,
  runs the tools and moves files, as the library decides.
- `tests/` exercises the library on concrete values.
