# svgn

An SVG optimizer: a document model for SVG, a parser that builds it from
text, and plugins that rewrite the tree (remove comments, empty attributes
and containers, shorten ids and colors, merge and minify styles, ...).

The library in `src/` is written in Verus, and each function carries a
contract that Verus proves:

- `ast`: the document tree and its mathematical view.
- `parser`: the tree builder, a state machine over the reader's events.
- `plugin`, `config`, `value`: plugins, their parameters and configuration.
- `plugins/`: one module for each plugin, each stating what it does to a tree.
- `optimizer`, `cli`: the decisions of an optimization run and of the
  command line (passes, data URIs, which files, which overrides).
- `laws`: properties that span several functions, such as plugins whose
  second run changes nothing.

`app/` holds what is not verified: the `svgn` command, configuration files
(JSON and TOML), the plugin registry, and the plugins whose work is
floating-point arithmetic. `tests/` runs the library on concrete inputs.
