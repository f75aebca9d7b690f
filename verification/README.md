# openinfer

An inference runtime for graphs stored beside `.oinf` model files, written in
Verus: the model parser, the tensor model, the cache store, graph validation,
the runtime state, the node engine and executor, and the Vulkan dispatch
planning are verified against their contracts.

- `src/` is the verified library. Each public function states what it returns
  and how it changes its `&mut` arguments; the `law_*` proof functions state
  what holds across several calls (a write read back, a loop run once per
  index, a counter moved and moved back, a read repeated).
- `app/` holds what Verus cannot take: mapping the model file, the operator
  kernels and the thread pool that runs the blocks beside the entry block,
  the Vulkan device through `ash`, floating-point values, and the serialized
  trace.
- `tests/` runs the library on concrete graphs and models.

Verify with Verus on `src/lib.rs`; build and test with Cargo as usual.
