# suigen

The text and layout decisions of a generator of TypeScript SDKs for Sui Move
packages, verified with Verus.

- `src/ts_imports.rs`: import statements, grouped into one statement per module
  and kind, as a file's text or as a `genco` token stream.
- `src/barrel.rs`: the top-level barrel file and the barrel file of each module.
- `src/packages.rs`: top-level packages of the models, the directory of each
  package, its `constants.ts` and `index.ts`.
- `src/names.rs`: PascalCase directory names (through `convert_case`) and
  import names clear of reserved words.
- `src/address.rs`: hex literals of package addresses.
- `src/rpc.rs`: the RPC endpoint.
- `src/text.rs`, `src/js_tokens.rs`: string helpers and the `genco` token stream.
- `app/lib.rs`: reading directories and writing the files.
- `tests/`: tests on concrete values.
