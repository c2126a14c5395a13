# git_sync

Plumbing for a disconnected multi-site git sync: `pack-sync` moves git
objects and refs between sites as a one-line JSON manifest followed by a
base64 pack; `lfs-sync` does the same for git-lfs objects, one
`id:base64` record per object.

The library (`src/`) holds the decisions, parsers and file formats of both
tools, each function with a contract proved by Verus:

- `text`, `order`, `assoc`: strings (byte offsets of `find`, `substring`,
  `split`, `join`), sorting of names, and association lists keyed by name.
- `shared`: command outcomes and the choice of output file names.
- `git`, `lfs`: the git commands the tools run and what they read from
  their outcomes.
- `refs`: reading `<sha> <ref>` lines and comparing a snapshot with the
  current refs.
- `select`: telling commit ids, branches and tags apart; dates and times;
  the commit log of a timestamp export.
- `walk`, `scan`: walking the commit graph and finding the objects to
  export, as state machines that ask git questions and take the answers.
- `manifest`: the tags and branches an export records and the commits the
  importing side must have.
- `import`, `filter`: the overwrite rules of an import and the branch
  filters.
- `listing`: the listings of the inspect tools.
- `codec`: the export formats (pack and lfs), with their round trips.
- `lfs_export`: choosing the lfs objects of an export.

`app/` is the two programs around the library: command lines, files,
processes and JSON. `tests/` exercises the library on concrete values.
