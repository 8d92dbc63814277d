# git-ignore

`git-ignore` lists the root-level templates of
[github/gitignore](https://github.com/github/gitignore) and appends a chosen
template to the `.gitignore` file of the current directory. Template lists and
template files are cached for ten minutes by default (`[cache]` in
`~/.config/git-ignore/config.toml`); `--no-cache` turns the cache off for one run.

Layout:

- `src/` is the library, with its contracts and proofs:
  - `text.rs`: string helpers (equality, ASCII case folding, prefixes and
    suffixes, code-point order, joining) stated over `Seq<char>`;
  - `template.rs`: which listing entries are templates, their stable order by
    lower-case name, name resolution, listing and completion output;
  - `urls.rs`: the raw-file URL of a template;
  - `completion.rs`: the bash and zsh completion scripts;
  - `config.rs`: settings and their defaults;
  - `cache.rs`: cache records and freshness;
  - `installer.rs`: the bytes appended to `.gitignore`;
  - `service.rs`: the request a command line makes, and the cache/network
    decisions of one fetch as a state machine;
  - `version.rs`: the version line.
- `app/` is the program: argument parsing (clap), files, the clock, HTTP
  (reqwest) and JSON/TOML decoding (serde), driving the library.
- `tests/` exercises the library on concrete values.
