use rusty_llama::ContextInitError;
use rusty_llama::params::{test_ctx_params, ContextParams, ModelParams, SamplerChainParams};

#[test]
fn init() {
    let _params = ModelParams::new();
}

#[test]
fn model_params_defaults() {
    let p = ModelParams::new();
    assert_eq!(p.n_gpu_layers, 999);
    assert_eq!(p.split_mode, 1);
    assert_eq!(p.main_gpu, 0);
    assert!(p.use_mmap);
    assert!(!p.use_mlock);
    assert!(!p.vocab_only);
    assert_eq!(p.progress_callback, None);
}

#[test]
fn model_params_set_n_gpu_layers() {
    let mut p = ModelParams::new();
    p.set_n_gpu_layers(0);
    assert_eq!(p.n_gpu_layers, 0);
    assert_eq!(p.as_ptr().n_gpu_layers, 0);
    p.as_mut_ptr().main_gpu = 2;
    assert_eq!(p.main_gpu, 2);
}

#[test]
fn context_params_defaults() {
    let p = ContextParams::new();
    assert_eq!(p.n_ctx, 512);
    assert_eq!(p.n_batch, 2048);
    assert_eq!(p.n_ubatch, 512);
    assert_eq!(p.n_seq_max, 1);
    assert_eq!(p.n_threads, 4);
    assert_eq!(p.yarn_ext_factor, (-1.0f32).to_bits());
    assert_eq!(p.rope_freq_base, 0.0f32.to_bits());
    assert!(p.offload_kqv);
    assert!(p.no_perf);
    assert!(!p.has_worker_thread_state());
}

#[test]
fn context_params_chained_setters() {
    let mut p = ContextParams::new();
    p.set_n_ctx(1024).set_n_batch(256).set_n_seq_max(8).set_no_perf(false);
    assert_eq!(p.n_ctx, 1024);
    assert_eq!(p.n_batch, 256);
    assert_eq!(p.n_seq_max, 8);
    assert!(!p.no_perf);
    assert_eq!(p.as_ptr().n_ctx, 1024);
}

#[test]
fn test_ctx_params_values() {
    let p = test_ctx_params();
    assert_eq!(p.n_ctx, 512);
    assert_eq!(p.n_batch, 512);
    assert_eq!(p.n_seq_max, 4);
    assert!(p.no_perf);
    assert_eq!(p.n_ubatch, 512);
}

#[test]
fn worker_thread_state_each_field() {
    let mut p = ContextParams::new();
    p.cb_eval = Some(0x1000);
    assert!(p.has_worker_thread_state());

    let mut p = ContextParams::new();
    p.cb_eval_user_data = 8;
    assert!(p.has_worker_thread_state());

    let mut p = ContextParams::new();
    p.abort_callback = Some(0x2000);
    assert!(p.has_worker_thread_state());

    let mut p = ContextParams::new();
    p.abort_callback_data = 16;
    assert!(p.has_worker_thread_state());

    let mut p = ContextParams::new();
    p.samplers = 32;
    assert!(p.has_worker_thread_state());

    let mut p = ContextParams::new();
    p.n_samplers = 1;
    assert!(p.has_worker_thread_state());

    let mut p = ContextParams::new();
    p.n_ctx = 4096;
    p.n_threads = 8;
    assert!(!p.has_worker_thread_state());
}

#[test]
fn safe_constructor_check() {
    let p = ContextParams::new();
    assert_eq!(p.check_safe(), Ok(()));
    let mut p = ContextParams::new();
    p.cb_eval = Some(0x10);
    assert_eq!(p.check_safe(), Err(ContextInitError::ThreadUnsafeParams));
}

#[test]
fn sampler_chain_params_default() {
    let mut p = SamplerChainParams::new();
    assert!(p.no_perf);
    p.as_mut_ptr().no_perf = false;
    assert!(!p.as_ptr().no_perf);
}
