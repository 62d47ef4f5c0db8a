# generic_merge

A structured three-way merge tool for source files, written in Verus.

The three versions of a file (base, left, right) are parsed into concrete
syntax trees with `tree-sitter`, the trees are matched node by node, and the
base and its two descendants are merged along the matchings. Where the two
descendants disagree, the merged tree holds a conflict, written out between
conflict markers.

Layout of `src/` (verified):

- `model.rs`: the concrete syntax tree, its contents and its size.
- `parsing/`, `parsing_handlers/`: reading a text into a tree, and the
  rewrites applied afterwards (gathering imports, removing comments).
- `matching_handlers/`: language rules that score two declarations.
- `matching/`: ordered matching (dynamic programming over the children),
  unordered matching (by labels, or as an assignment problem solved by
  `pathfinding`), and the matchings store; `spec.rs` states what is
  computed, `bounds.rs` proves that every score fits its integer type.
- `merge/`: merging leaves (texts merged by `diffy`), ordered and unordered
  merging of inner nodes; `spec.rs` states the result, `laws.rs` proves
  properties that hold of every merge.
- `control.rs`: running the tool on a merge scenario or a comparison.
- `changes_tree.rs`, `unordered_pair.rs`: small supporting types.

`app/` holds the command line tool: argument parsing, file reading and
writing, logging and exit codes.
