# goose_mlx_lm

Gemma 4 text models and their draft assistants, with the decisions verified by Verus and the
tensor work done by MLX.

- `src/` is the verified library.
  - `weights` matches the keys of weight files to parameters and judges what is left over;
    `weight_laws` proves what holds of that as a whole.
  - `graph` lists tensor operations. A model does not compute tensors itself: it adds the
    operations of a pass to a graph, and its contract says which term the result is.
  - `models` holds configurations, the layout of layers, forward passes, generation and the
    assistant; `models::laws` proves what holds of them together, such as when a model can run
    and which caches a pass updates, and
    `models::embedding_laws` and `models::draft_laws` what embeddings, draft masks and draft scores
    hold, given what the operations on them mean.
- `tests/` runs the library on concrete values.
- `app/` reads files, holds the tensors and runs graphs with `mlx_rs`. It is generic over the
  caches, attention kernels and rotary embeddings of the runtime that uses it.

Single precision numbers cross the library as bit patterns. Whatever has to be computed with
them, such as a square root, is named in the graph or handed in.
