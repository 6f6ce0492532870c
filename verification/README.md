# rusty_llama

Safe bindings for llama.cpp, split in two:

- `src/` — the verified library (Verus). It holds every decision the bindings
  make that does not need the native library or floating-point arithmetic:
  - `batch`: the per-slot arrays a decode call reads, and appending to / clearing them;
  - `worker`: the state a context worker keeps (checked-out sequence slots,
    pending checkouts, its one-slot batch) and how each command changes it and
    a sequence's token snapshot, with the KV-memory edits each command asks for;
  - `logit` and `samplers`: order and masking of logits over their IEEE-754 bit
    patterns (`total_cmp` order, IEEE `<`), the k-th largest logit, stable
    ordering of logits, Top-K, greedy selection, and the XTC cut;
  - `params`: context, model and sampler-chain parameter records with their
    defaults and the safe-constructor check;
  - `text`: tokenizer input checks and the sizing and reading of native text buffers;
  - `backend`: reference counting of the process-wide backend;
  - `error`: the error types and the decode status mapping.
- `app/` — the native calls (`ffi`), the worker thread and channels of a
  context, model and sequence handles, and the samplers that do floating-point
  arithmetic (`Temperature`, `MinP`, `TopNSigma`, `TopP`, `Typical`, `Xtc`,
  `Dist`, `Chain`), which use the verified ordering and selection steps.
