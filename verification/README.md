# mds

Verified core of `mdsr-cli`, a tool that exports Shopify metafield and metaobject
definitions to JSON files and imports them into another store.

- `src/` is the library, checked by Verus: owner types, configuration files and their
  environments, export (dropping Shopify's own namespaces and types, turning metaobject
  definition ids into types), import decisions (create, update, recreate, leave, fail),
  dependency levels and the dependency tree of metaobject definitions, the reading of
  Shopify's GraphQL responses, and the start-up rules (environment choice, update notice).
  The outside world is reached through the ports in `src/ports.rs`.
- `app/` is the command-line program around it: argument parsing, HTTP, files, the clock,
  logging, prompts, and the serde forms of the library's types.
- `tests/` runs the library on concrete values.
