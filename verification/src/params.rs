//! Value records for the parameters of models, contexts and sampler chains.
//!
//! Each record holds the fields of the matching llama.cpp parameter struct as
//! plain values: enums by their integer value, `float` fields by their
//! IEEE-754 bit pattern, and pointer fields by their address (`0` for null;
//! a callback is `Some(address)` when set).
use vstd::prelude::*;

use crate::error::ContextInitError;

verus! {

/// Bit pattern of `-1.0f32`.
pub const MINUS_ONE_F32_BITS: u32 = 0xbf80_0000;

/// Default thread count of llama.cpp (`GGML_DEFAULT_N_THREADS`).
pub const DEFAULT_N_THREADS: i32 = 4;

/// `GGML_TYPE_F16`.
pub const GGML_TYPE_F16: i32 = 1;

/// Parameters used to create a context.
#[derive(Clone, Copy)]
pub struct ContextParams {
    pub n_ctx: u32,
    pub n_batch: u32,
    pub n_ubatch: u32,
    pub n_seq_max: u32,
    pub n_threads: i32,
    pub n_threads_batch: i32,
    pub rope_scaling_type: i32,
    pub pooling_type: i32,
    pub attention_type: i32,
    pub flash_attn_type: i32,
    pub rope_freq_base: u32,
    pub rope_freq_scale: u32,
    pub yarn_ext_factor: u32,
    pub yarn_attn_factor: u32,
    pub yarn_beta_fast: u32,
    pub yarn_beta_slow: u32,
    pub yarn_orig_ctx: u32,
    pub defrag_thold: u32,
    pub cb_eval: Option<usize>,
    pub cb_eval_user_data: usize,
    pub type_k: i32,
    pub type_v: i32,
    pub abort_callback: Option<usize>,
    pub abort_callback_data: usize,
    pub embeddings: bool,
    pub offload_kqv: bool,
    pub no_perf: bool,
    pub op_offload: bool,
    pub swa_full: bool,
    pub kv_unified: bool,
    pub samplers: usize,
    pub n_samplers: usize,
}

impl ContextParams {
    /// The parameters reach state outside the context: an evaluation or abort
    /// callback, callback user data, or native backend samplers.
    pub open spec fn spec_has_worker_thread_state(&self) -> bool {
        ||| self.cb_eval is Some
        ||| self.cb_eval_user_data != 0
        ||| self.abort_callback is Some
        ||| self.abort_callback_data != 0
        ||| self.samplers != 0
        ||| self.n_samplers != 0
    }

    /// The thread-safety check looks only at the callbacks, their user data
    /// and the native sampler fields: two records that agree on those six
    /// fields get the same answer, whatever their sizes, thread counts or
    /// flags.
    pub proof fn lemma_thread_state_only_pointers(a: ContextParams, b: ContextParams)
        requires
            a.cb_eval == b.cb_eval,
            a.cb_eval_user_data == b.cb_eval_user_data,
            a.abort_callback == b.abort_callback,
            a.abort_callback_data == b.abort_callback_data,
            a.samplers == b.samplers,
            a.n_samplers == b.n_samplers,
        ensures
            a.spec_has_worker_thread_state() == b.spec_has_worker_thread_state(),
    {
    }

    /// A record with no callback, no callback user data and no native
    /// samplers is accepted; one with any of them set is refused.
    pub proof fn lemma_thread_state_pointer_free(p: ContextParams)
        ensures
            p.cb_eval is None && p.cb_eval_user_data == 0 && p.abort_callback is None
                && p.abort_callback_data == 0 && p.samplers == 0 && p.n_samplers == 0
                ==> !p.spec_has_worker_thread_state(),
            p.cb_eval is Some ==> p.spec_has_worker_thread_state(),
            p.cb_eval_user_data != 0 ==> p.spec_has_worker_thread_state(),
            p.abort_callback is Some ==> p.spec_has_worker_thread_state(),
            p.abort_callback_data != 0 ==> p.spec_has_worker_thread_state(),
            p.samplers != 0 ==> p.spec_has_worker_thread_state(),
            p.n_samplers != 0 ==> p.spec_has_worker_thread_state(),
    {
    }

    /// llama.cpp's default context parameters
    /// (`llama_context_default_params`).
    pub open spec fn spec_default() -> ContextParams {
        ContextParams {
            n_ctx: 512,
            n_batch: 2048,
            n_ubatch: 512,
            n_seq_max: 1,
            n_threads: DEFAULT_N_THREADS,
            n_threads_batch: DEFAULT_N_THREADS,
            rope_scaling_type: -1i32,
            pooling_type: -1i32,
            attention_type: -1i32,
            flash_attn_type: -1i32,
            rope_freq_base: 0,
            rope_freq_scale: 0,
            yarn_ext_factor: MINUS_ONE_F32_BITS,
            yarn_attn_factor: MINUS_ONE_F32_BITS,
            yarn_beta_fast: MINUS_ONE_F32_BITS,
            yarn_beta_slow: MINUS_ONE_F32_BITS,
            yarn_orig_ctx: 0,
            defrag_thold: MINUS_ONE_F32_BITS,
            cb_eval: None,
            cb_eval_user_data: 0,
            type_k: GGML_TYPE_F16,
            type_v: GGML_TYPE_F16,
            abort_callback: None,
            abort_callback_data: 0,
            embeddings: false,
            offload_kqv: true,
            no_perf: true,
            op_offload: true,
            swa_full: true,
            kv_unified: false,
            samplers: 0,
            n_samplers: 0,
        }
    }

    /// llama.cpp's default context parameters.
    pub fn new() -> (r: Self)
        ensures
            r == Self::spec_default(),
    {
        ContextParams {
            n_ctx: 512,
            n_batch: 2048,
            n_ubatch: 512,
            n_seq_max: 1,
            n_threads: DEFAULT_N_THREADS,
            n_threads_batch: DEFAULT_N_THREADS,
            rope_scaling_type: -1,
            pooling_type: -1,
            attention_type: -1,
            flash_attn_type: -1,
            rope_freq_base: 0,
            rope_freq_scale: 0,
            yarn_ext_factor: MINUS_ONE_F32_BITS,
            yarn_attn_factor: MINUS_ONE_F32_BITS,
            yarn_beta_fast: MINUS_ONE_F32_BITS,
            yarn_beta_slow: MINUS_ONE_F32_BITS,
            yarn_orig_ctx: 0,
            defrag_thold: MINUS_ONE_F32_BITS,
            cb_eval: None,
            cb_eval_user_data: 0,
            type_k: GGML_TYPE_F16,
            type_v: GGML_TYPE_F16,
            abort_callback: None,
            abort_callback_data: 0,
            embeddings: false,
            offload_kqv: true,
            no_perf: true,
            op_offload: true,
            swa_full: true,
            kv_unified: false,
            samplers: 0,
            n_samplers: 0,
        }
    }

    /// Borrow the record the native initialisation reads.
    pub fn as_ptr(&self) -> (r: &Self)
        ensures
            *r == *self,
    {
        self
    }

    /// Whether the parameters reach state outside the context (callbacks,
    /// callback user data, native backend samplers), which a context worker
    /// thread must not be handed by the safe constructor.
    pub fn has_worker_thread_state(&self) -> (r: bool)
        ensures
            r == self.spec_has_worker_thread_state(),
    {
        self.cb_eval.is_some() || self.cb_eval_user_data != 0 || self.abort_callback.is_some()
            || self.abort_callback_data != 0 || self.samplers != 0 || self.n_samplers != 0
    }

    /// The check the safe context constructor makes before it starts a worker:
    /// parameters that reach outside state are refused.
    pub fn check_safe(&self) -> (r: Result<(), ContextInitError>)
        ensures
            r is Err <==> self.spec_has_worker_thread_state(),
            r is Err ==> r == Err::<(), ContextInitError>(ContextInitError::ThreadUnsafeParams),
    {
        if self.has_worker_thread_state() {
            Err(ContextInitError::ThreadUnsafeParams)
        } else {
            Ok(())
        }
    }

    /// Set the context size.
    pub fn set_n_ctx(&mut self, n_ctx: u32) -> (r: &mut Self)
        ensures
            *r == (ContextParams { n_ctx, ..*old(self) }),
            *final(self) == *final(r),
    {
        self.n_ctx = n_ctx;
        self
    }

    /// Set the logical batch size.
    pub fn set_n_batch(&mut self, n_batch: u32) -> (r: &mut Self)
        ensures
            *r == (ContextParams { n_batch, ..*old(self) }),
            *final(self) == *final(r),
    {
        self.n_batch = n_batch;
        self
    }

    /// Set the number of sequence slots.
    pub fn set_n_seq_max(&mut self, n_seq_max: u32) -> (r: &mut Self)
        ensures
            *r == (ContextParams { n_seq_max, ..*old(self) }),
            *final(self) == *final(r),
    {
        self.n_seq_max = n_seq_max;
        self
    }

    /// Turn performance timing off (`true`) or on.
    pub fn set_no_perf(&mut self, no_perf: bool) -> (r: &mut Self)
        ensures
            *r == (ContextParams { no_perf, ..*old(self) }),
            *final(self) == *final(r),
    {
        self.no_perf = no_perf;
        self
    }
}

/// Parameters used to load a model.
#[derive(Clone, Copy)]
pub struct ModelParams {
    pub devices: usize,
    pub tensor_buft_overrides: usize,
    pub n_gpu_layers: i32,
    pub split_mode: i32,
    pub main_gpu: i32,
    pub tensor_split: usize,
    pub progress_callback: Option<usize>,
    pub progress_callback_user_data: usize,
    pub kv_overrides: usize,
    pub vocab_only: bool,
    pub use_mmap: bool,
    pub use_mlock: bool,
    pub check_tensors: bool,
    pub use_extra_bufts: bool,
    pub no_host: bool,
}

impl ModelParams {
    /// llama.cpp's default model parameters (`llama_model_default_params`).
    pub open spec fn spec_default() -> ModelParams {
        ModelParams {
            devices: 0,
            tensor_buft_overrides: 0,
            n_gpu_layers: 999,
            split_mode: 1,
            main_gpu: 0,
            tensor_split: 0,
            progress_callback: None,
            progress_callback_user_data: 0,
            kv_overrides: 0,
            vocab_only: false,
            use_mmap: true,
            use_mlock: false,
            check_tensors: false,
            use_extra_bufts: true,
            no_host: false,
        }
    }

    /// llama.cpp's default model parameters.
    pub fn new() -> (r: Self)
        ensures
            r == Self::spec_default(),
    {
        ModelParams {
            devices: 0,
            tensor_buft_overrides: 0,
            n_gpu_layers: 999,
            split_mode: 1,
            main_gpu: 0,
            tensor_split: 0,
            progress_callback: None,
            progress_callback_user_data: 0,
            kv_overrides: 0,
            vocab_only: false,
            use_mmap: true,
            use_mlock: false,
            check_tensors: false,
            use_extra_bufts: true,
            no_host: false,
        }
    }

    /// Borrow the record the native loader reads.
    pub fn as_ptr(&self) -> (r: &Self)
        ensures
            *r == *self,
    {
        self
    }

    /// Borrow the record for writing.
    pub fn as_mut_ptr(&mut self) -> (r: &mut Self)
        ensures
            *r == *old(self),
            *final(self) == *final(r),
    {
        self
    }

    /// Set the number of layers to offload to the GPU.
    pub fn set_n_gpu_layers(&mut self, n_gpu_layers: i32) -> (r: &mut Self)
        ensures
            *r == (ModelParams { n_gpu_layers, ..*old(self) }),
            *final(self) == *final(r),
    {
        self.n_gpu_layers = n_gpu_layers;
        self
    }
}

/// Parameters used to create a native sampler chain.
#[derive(Clone, Copy)]
pub struct SamplerChainParams {
    /// Turn per-sampler performance timing off.
    pub no_perf: bool,
}

impl SamplerChainParams {
    /// llama.cpp's default chain parameters
    /// (`llama_sampler_chain_default_params`): timing is off; set `no_perf`
    /// to `false` to have the chain collect its performance counters.
    pub fn new() -> (r: Self)
        ensures
            r.no_perf,
    {
        SamplerChainParams { no_perf: true }
    }

    /// Borrow the record the native chain constructor reads.
    pub fn as_ptr(&self) -> (r: &Self)
        ensures
            *r == *self,
    {
        self
    }

    /// Borrow the record for writing.
    pub fn as_mut_ptr(&mut self) -> (r: &mut Self)
        ensures
            *r == *old(self),
            *final(self) == *final(r),
    {
        self
    }
}

/// A minimal set of context parameters for tests: a 512-token context and
/// batch, four sequence slots, and performance timing off.
pub fn test_ctx_params() -> (p: ContextParams)
    ensures
        p == (ContextParams { n_ctx: 512, n_batch: 512, n_seq_max: 4, no_perf: true, ..ContextParams::spec_default() }),
{
    let mut p = ContextParams::new();
    p.set_n_ctx(512);
    p.set_n_batch(512);
    p.set_n_seq_max(4);
    p.set_no_perf(true);
    p
}

} // verus!
