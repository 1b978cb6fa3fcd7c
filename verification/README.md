# aliasc (verified core)

`aliasc` compiles Alias DSL v2 sources into shell-specific output. This crate
is its verified core, written in Verus:

- `src/context.rs` — target contexts (shell, platform, distribution,
  environment) and which source sections are active in them.
- `src/os_release.rs` — the distribution named by `/etc/os-release` text.
- `src/dsl.rs` — the template syntax tree, diagnostics and `parse_template`.
- `src/lex.rs`, `src/scan.rs` — the tokenizer, the pipeline builder and the
  quote-aware scans they use.
- `src/version.rs` — release versions and the decisions of the self-update.
- `src/text.rs` — character classes and sequence helpers.
- `src/laws.rs` — properties that span functions, stated and proved.

`app/` holds what the verifier does not see: probing the host, the network
and file-system work of the self-update, and serialisable and command-line
copies of the library's types.
