# rusty-blog

A weblog engine that keeps its posts and lists in plain files and renders
them with handlebars templates.

- `src/` is the verified library: the parser of the blog files
  (`filerparser.rs`, on top of the line and trim helpers of `text.rs`),
  posts and lists (`post.rs`, `list.rs`), the decisions of the markdown cache
  (`markdowncache.rs`), the data the templates render from (`render.rs`),
  the configuration defaults (`config.rs`) and the file layout of the
  documents directory (`template.rs`, `servicemappings.rs`).
- `app/` is the server around it: configuration file, file reads and writes,
  the handlebars registry and the actix-web routes.
- `tests/` runs the library on concrete files.
