# sourcebundler

Puts the source of a Rust binary, and of the library that it uses, into one file.

The binary's source is copied line by line. Its `extern crate <name>;` line becomes
`pub mod <name> { ... }` around the contents of `src/lib.rs`, in which each `mod name;`
line (except `mod tests;`) becomes that module, and so on. `use <name>::` lines become
`use self::<name>::`, and absolute `crate::` paths inside the library gain the name of the
crate, unless they invoke an exported macro. On request lines are minified and comments
are stripped; comment lines behind a lone `// bundle-keep` line are kept verbatim.

Stripping follows block comments and string literals from line to line, and nothing inside
them is expanded. A raw string that spans several lines is stripped line by line.

## Layout

- `src/` is the library, verified with Verus. It does no input or output: a `Bundler` says
  what it needs next (`request`) and is handed the reply (`run`).
  - `text`: white space, identifiers, strings.
  - `strip`: the tokens of a line, and the line without its comments.
  - `pattern`: the regular expressions, which are those of the `regex` crate.
  - `grammar`: the lines that are looked for.
  - `paths`: the rewriting of `crate::` paths.
  - `state`: the model of a run, and what each reply makes of it.
  - `bundler`: the bundler itself.
  - `expansion`: what a whole run writes.
- `app/` answers the requests from the disk.
- `tests/` runs the library.
