# zopra

A reactive component layer for GPUI, with its core logic verified by Verus.

- `src/utils/arena.rs` — a generational arena (`Arena`, `Id`) with its
  mathematical model and the laws of insertion, removal and slot reuse.
- `src/types/` — the runtime records (`ComponentOwner`, `ReactiveNode`, ...)
  and the scope / computation guards that restore the active scope and
  settle a node's state.
- `src/rewrite/` — what the `#[component]` attribute decides: scope tracking
  and shadowing of signal names, completion of hook and signal calls with
  `window` / `cx` (and of a hook's closure with a `cx` parameter), the
  scope steps of the body walk, rewriting of signal calls inside macro token streams, and
  the names and messages of the generated props builder.
- `src/utils.rs` — `ClassInput` and the Tailwind class list (`class_names`,
  merged by `tw_merge`, with `try_class_names` for lists whose merge is not
  sure to return).
- `app/` — the GPUI hooks, the `cn!` macro, and the `syn` / `quote` driver of
  the `#[component]` and `signals!` transformations.
