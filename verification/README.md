# of-zed-project-generator-rs

Sets up clangd for openFrameworks projects that are opened in the Zed editor. clangd
understands no wildcards in search paths, so every directory is listed: in
`compile_commands.json`, which says how each source file is compiled, and in `.clangd`,
for files that the database does not list.

- `src/` is the library, verified with Verus. From plain values it computes the search
  path, the source files, the entries of the database and the text of `.clangd`. It reads
  nothing from disk.
- `app/` is the program around it: arguments, questions, reading directories, writing
  the database as JSON, writing the two files.
- `tests/` runs the library.
