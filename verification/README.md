# metal-infer

An experimental Transformer inference engine for Apple Silicon: FP16 execution
of dense Qwen3 models on Metal, with greedy and sampled generation, an
OpenAI-compatible chat completions server with SSE streaming, and benchmarks.

The library plans everything that a device is asked to do and proves what it
plans; the application around it owns the device, the files and the network.

## Layout

- `src/` is the library, verified with Verus:
  - `gpu`: tensors and their views, scratch memory, recorded batches, profiles;
  - `ops`, `kernels`, `command_batch`: which kernel an operation launches, over
    which grid and with which constants, or why it is refused;
  - `tuning`, `gemv_dispatch`, `flash_tuning`, `planner`: the choices of kernels
    for a device, and the overrides of a plan;
  - `qwen3`: configuration, weights, KV cache, forward passes, batched decoding
    and generation;
  - `weights`, `halves`, `tokenizer`, `source`, `sampling`: weight files and their
    numbers, tokens and chats, the model cache, and the choice of tokens;
  - `server`, `cli`, `shader`, `json`, `text`: requests and answers, the command line, the
    kernel source, and the texts that they share.
- `tests/` runs the library on concrete values.
- `app/` is the `metal-infer` command: `generate`, `serve`, `bench` and
  `inference`. It replays recorded batches on Metal, and reads the kernels from
  the directory that `--kernels` names.

## What is proved

Every operation states its kernel launches, and a refused operation leaves its
batch as it was. An operation takes only tensors whose memory is still reserved,
and states which scratch memory is reserved after it. Beyond single calls, for
example:

- live scratch leases never overlap, and no byte of a chunk is lost;
- a recorded command reads and writes the bytes of the tensors it was recorded
  for, and a pass leaves no scratch memory reserved but that of its output;
- a pass over a model whose weights fit its configuration succeeds, as long as
  its sizes can be counted;
- the plan alone decides whether a decode step launches a fused projection;
- decoding ahead hands out the tokens of decoding in turn, and leaves as many
  in the cache;
- a sequence in a batch launches the attention that it launches alone;
- a pass reads the tokens that it was given;
- listing a plan and applying the list gives the plan back.
