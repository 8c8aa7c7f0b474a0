# cmd_guard

A PreToolUse hook that splits a shell command line into the individual
commands it runs and checks each against an allowlist, with subcommand rules
and regex deny patterns. The library in `src/` is verified with Verus; `app/`
holds the program around it (stdin/stdout JSON, configuration files, presets
on disk, and the Nushell grammar).

## Layout

- `src/text.rs` — character-level helpers: trimming, base names, unquoting,
  ASCII case folding, joining and splitting words.
- `src/sorted.rs` — lexicographic order, strictly sorted string lists and their
  union, with the proof that a sorted list is determined by its strings.
- `src/types.rs` — hook input/output, parsed commands, allow rules and the
  allowlist map (a type invariant keeps its names distinct).
- `src/pattern.rs` — deny patterns, compiled and matched by the `regex` crate.
- `src/allowlist.rs` — which rule applies to a command, what it says, checking
  a list of commands, and merging rules and allowlists.
- `src/preset.rs` — preset names and applying loaded presets.
- `src/syntax.rs` — syntax trees as plain values, built by tree-sitter.
- `src/parser/` — the bash, PowerShell and Nushell command extraction.
- `src/hook.rs` — the decision the hook answers.
- `src/laws.rs` — properties of the library as a whole.

## Building `app/`

The Nushell grammar crate (`tree-sitter-nu`) is not available from the
registry this project builds against, so `app/nushell.rs`, which parses the
script of a `nu -c` launcher with it, does not compile here. The library does
not depend on it: `parser::nushell::commands_of_tree` works on any syntax tree
converted to `SyntaxNode`, and `parser::expand_nushell` puts the commands found
in place of each `nu -c` script. The preset TOML files are likewise not part of
this source tree, so the list of embedded presets in `app/preset.rs` is empty
and presets come from the presets directories on disk.
