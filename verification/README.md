# ztcm

Generates TypeScript declaration files (`<file>.css.d.ts`) for CSS modules: every
class, id and `@value` name of a CSS file becomes a `readonly` string property of the
declared `styles` object.

- `src/` is the verified library: text operations (`strings`), pattern matching through
  the `regex` crate (`matching`), name extraction (`parse_and_printout::str_ext`), the
  declaration lines of a CSS text (`parse_and_printout::parse`), the decision to
  (re)write a declaration file (`parse_and_printout::print`, `run::parse_and_printout`,
  `parser`), command-line handling (`Config::new`, `resolve_input`,
  `run::resolve_input`), the split of files among threads and the watch loop's
  decisions (`watch`).
- `app/` is the program: the `clap` command line, file reading and writing, `glob`,
  threads and sleeping.
- `tests/` runs the library on concrete inputs.
