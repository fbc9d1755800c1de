# landing

A small web server that serves static files, renders `minijinja` templates and
keeps a `tailwind_css` stylesheet up to date, configured by `config.toml`.

The logic lives in `src/` and is verified with Verus:

- `text`: prefixes, suffixes, whitespace splitting, lower-case hexadecimal.
- `endpoint`: the normal form of endpoints (`/` at both ends, no `//`), with
  its laws.
- `uri`: request URIs, read through the `http` crate.
- `config`: the configuration, the rules applied when it is loaded, and how a
  request URI maps to a template name or an asset URI.
- `templates`: the names a template file is known by, the template store, and
  the context a page is rendered with (string variables and TOML documents).
- `tailwind`: class collection, bundling and conditional requests for the
  stylesheet.
- `routing`: which service answers a request, and the variables of a page.
- `scripts`: the scripts that run before a page is rendered.
- `watch`: how the file watchers react to events.
- `error`: the configuration error.

`app/` holds the server around it: reading files, the `axum`/`tower`
services, the `notify` watchers and `main`.
