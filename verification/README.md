# gruff

Gruff is an opinionated, deterministic maintainability linter for Python. This crate holds
its checking logic as a Verus library, with each public function's behaviour stated in its
contract and proved, and a thin command-line program around it.

- `src/` — the library. `syntax` is the Python syntax tree the rules read; `text` locates
  offsets as rows and columns; `rules/` holds the rules (GR001–GR012), each as a spec
  function over the syntax tree and an executable check proved equal to it; `noqa` reads
  suppression comments; `check` runs every rule over one file; `selection` and `config`
  decide which rules run where; `discovery` decides which files are checked; `report` turns
  a run's inputs into one ordered report; `render` writes it as text.
- `app/` — the `gruff` command: argument parsing, walking directories, reading files and
  `pyproject.toml`, parsing Python with Ruff's parser, and writing to standard output.
- `tests/` — tests of the library on concrete inputs.

Two rule documents claim the code GR012, `explicit-instance-data` and
`public-attribute-properties`. Both flag a public attribute stored through a method's
receiver, so under one code they would report the same store twice. The rule table registers
`explicit-instance-data` as GR012, the document that fixes the rule's message, its exemptions
and its suppression row, and `gruff rule GR012` names it. The other,
`rules::public_attribute_properties`, is a verified check of its own that the table does not
run.
