//! Backends: what is asked of them, and what their answers mean.

use traject::ids::{PrefixNodeId, StepId, TrajectoryId};
use traject::inference::backend::gpu::{count_devices, GpuCapabilities};
use traject::inference::backend::http_openai::{
    chat_body, chunk_result, finish_reason, prompt_of, text_tokens, Choice,
};
use traject::inference::backend::flashinfer::{
    discover_site_packages, site_candidates, FlashInferKernelConfig,
};
use traject::inference::backend::kernel::{
    check_attn_shapes, greedy, head_offset, CpuRefKernel, KvLayout, PrefillRequest,
};
use traject::inference::backend::kernel_smoke::{likely_token, smoke_result, KernelSmokeBackend};
use traject::inference::backend::local_engine::LocalEngineConfig;
use traject::inference::backend::sglang_lite::{
    endpoint, engine_request, EngineAnswer, LineBuffer, TokenDelta, UsageDelta,
};
use traject::inference::chunked::ChunkRequest;
use traject::inference::engine::{GenerateRequest, InferenceEngine, StubBackend};
use traject::inference::local_plan::{
    attention_width, attn_heads_to_use, check_model_shapes, env_number, expert_cache_size,
    local_layer_count, max_compress_tokens, output_path, resolve_attn_layout,
    resolve_sliding_window, run_widths, vocabulary, LayerShape, LocalWeightConfig, OutputPath,
    OutputShape,
};
use traject::inference::local_run::{
    collapse_for, decode_budget, embed_token, prompt_ids, sequence_of, toy_tokenize, Collapse,
    DecodeRun, RunKind,
};
use traject::inference::local_walk::{ChunkWalk, Work};
use traject::inference::kv_pool::{layer_handle, store_layer_kv_at_pos, PagedKvPool};
use traject::inference::toy_weights::{draws, lattice};
use traject::step::{Constraints, F32Bits, FinishReason, GenerateDelta};

fn request(text: &str) -> ChunkRequest {
    ChunkRequest {
        trajectory_id: TrajectoryId(1),
        step_id: StepId(2),
        prefix: None,
        delta: GenerateDelta::from_text(text),
        constraints: Constraints::default(),
        chunk_tokens: 4,
        decoded_so_far: 0,
        max_tokens: 8,
        session_id: Some("sess".to_string()),
        prefix_hint: Some("pfx-local-1".to_string()),
    }
}

/// A run of the made-up model, as far as it is not arithmetic: every token is
/// stored, and every sample is the same word.
#[test]
fn local_runner_generate_and_free() {
    assert_eq!(CpuRefKernel.name(), "cpu-ref");
    let config = LocalWeightConfig { prefer_flashinfer: false, ..LocalWeightConfig::default() };
    let mut pool = PagedKvPool::new(config.page_tokens, 1, 2, 0.0f32);
    let req = request("hello world");
    let prefix = sequence_of(&req);
    assert_eq!(prefix, "pfx-local-1");
    let ids = prompt_ids(&req, None, config.vocab_size);
    let kind =
        RunKind { vocab: config.vocab_size, eos: None, has_tokenizer: false, from_files: false };
    let mut run = DecodeRun::start(&req, ids, kind);
    while let Some(next) = run.next() {
        store_layer_kv_at_pos(
            &mut pool,
            &layer_handle(&prefix, 0),
            &[1.0, 2.0],
            &[3.0, 4.0],
            next.abs_pos,
        );
        run.sampled(7);
    }
    let out = run.finish(&req, None);
    assert!(out.tokens_produced >= 1);
    assert!(pool.pages_allocated() >= 1);
    traject::inference::kv_pool::free_layers(&mut pool, &prefix, 1);
    assert_eq!(pool.pages_allocated(), 0);
}

#[test]
fn a_request_names_its_prefix() {
    let engine = InferenceEngine::new(32);
    let mut req = GenerateRequest {
        trajectory_id: TrajectoryId(1),
        step_id: StepId(2),
        prefix: Some(PrefixNodeId(3)),
        delta: GenerateDelta::from_text("x"),
        constraints: Constraints::default(),
        max_tokens: 9,
        session_id: None,
        prefix_hint: None,
    };
    let chunk = engine.run_chunk(&req, 5, 2);
    assert_eq!(chunk.prefix_hint, Some("00000000-0000-0000-0000-000000000003".to_string()));
    assert_eq!((chunk.chunk_tokens, chunk.decoded_so_far, chunk.max_tokens), (5, 2, 9));
    req.prefix_hint = Some("h".to_string());
    assert_eq!(engine.run_chunk(&req, 0, 0).prefix_hint, Some("h".to_string()));
}

#[test]
fn stubs_do_what_they_are_told() {
    let req = request("x");
    let stop = StubBackend::always_stop().generate_chunk(&req);
    assert!(stop.finished && stop.tool_call.is_none());
    let tool = StubBackend::always_tool().generate_chunk(&req);
    assert_eq!(tool.finish_reason, Some(FinishReason::ToolCall));
    let mut once = StubBackend::tool_then_stop(1);
    assert!(once.generate_chunk(&req).tool_call.is_some());
    assert!(once.generate_chunk(&req).tool_call.is_none());
    let mut three = StubBackend::multi_chunk(3);
    assert!(!three.generate_chunk(&req).finished);
    assert!(!three.generate_chunk(&req).finished);
    assert!(three.generate_chunk(&req).finished);
}

#[test]
fn lines_come_out_whole() {
    let mut b = LineBuffer::new();
    assert!(b.push("ab").is_empty());
    assert_eq!(b.push("c \n d\ne"), vec!["abc".to_string(), "d".to_string()]);
    assert_eq!(b.push("\n"), vec!["e".to_string()]);
    // However the stream is cut, the lines are the same; empty ones are left
    // out.
    let stream = "one\ntwo\n\nthree";
    for cut in 0..=stream.len() {
        let mut b = LineBuffer::new();
        let mut lines = b.push(&stream[..cut]);
        lines.extend(b.push(&stream[cut..]));
        assert_eq!(lines, vec!["one".to_string(), "two".to_string()]);
    }
}

fn delta() -> TokenDelta {
    TokenDelta { text: None, token: None, finish_reason: None, error: None, usage: None }
}

#[test]
fn an_answer_gathers_its_deltas() {
    let mut a = EngineAnswer::new();
    a.take(TokenDelta { text: Some("he".to_string()), token: Some(5), ..delta() }).unwrap();
    a.take(TokenDelta {
        text: Some("y".to_string()),
        token: Some(6),
        usage: Some(UsageDelta { cache_hit_tokens: Some(3), session_lcp_tokens: None }),
        finish_reason: Some("length".to_string()),
        ..delta()
    })
    .unwrap();
    let out = a.finish();
    assert_eq!(out.text, "hey");
    assert_eq!(out.token_ids, vec![5, 6]);
    assert_eq!(out.cache_hit_tokens, 3);
    assert_eq!(out.finish_reason, Some(FinishReason::Length));
    assert!(out.finished);
    let mut a = EngineAnswer::new();
    let err = a.take(TokenDelta { error: Some("boom".to_string()), ..delta() }).unwrap_err();
    assert!(err.message().contains("boom"));
}

#[test]
fn an_engine_request_says_who_asks() {
    assert_eq!(endpoint("http://h:1/", "/v1/x"), "http://h:1/v1/x");
    let r = engine_request(&request("hi"));
    assert_eq!(r.prompt, "hi");
    assert_eq!(r.session_id, Some("sess".to_string()));
    assert_eq!(r.prefix_id, Some("pfx-local-1".to_string()));
    assert_eq!(r.trajectory_id, TrajectoryId(1).to_text());
    assert_eq!(r.step_id, StepId(2).to_text());
}

#[test]
fn a_chat_body_and_its_reply() {
    let b = chat_body(&request("hi"));
    assert_eq!(b.prompt, "hi");
    assert_eq!(prompt_of(&request("hi")), "hi");
    assert_eq!(finish_reason("length"), FinishReason::Length);
    assert_eq!(finish_reason("stop"), FinishReason::Stop);
    assert_eq!(text_tokens("ab"), vec![97, 98]);
    let r = chunk_result(Some(Choice {
        content: Some("ok".to_string()),
        finish_reason: Some("stop".to_string()),
    }));
    assert_eq!(r.text, "ok");
    assert!(r.finished);
    assert!(chunk_result(None).text.is_empty());
}

#[test]
fn attention_shapes_are_checked() {
    assert!(check_attn_shapes(4, 12, 12, 3, 2, 2).is_ok());
    assert!(check_attn_shapes(5, 12, 12, 3, 2, 2).is_err());
    assert!(check_attn_shapes(4, 11, 12, 3, 2, 2).is_err());
    assert!(check_attn_shapes(4, 12, 13, 3, 2, 2).is_err());
    assert_eq!(head_offset(2, 1, 2, 4), 20);
    assert_eq!(KvLayout::Nhd.as_flashinfer(), "NHD");
    assert_eq!(KvLayout::Hnd.as_flashinfer(), "HND");
}

#[test]
fn the_greedy_sample_is_the_best_score() {
    let bits = |v: &[f32]| v.iter().map(|x| x.to_bits()).collect::<Vec<u32>>();
    assert_eq!(greedy(&bits(&[0.5, 2.0, -3.0])).unwrap().token_id, 1);
    assert!(greedy(&[]).is_err());
}

#[test]
fn the_smoke_backend_counts() {
    let mut b = KernelSmokeBackend::cpu();
    let a = b.next_len();
    assert_eq!(b.next_len(), a + 1);
    let r = smoke_result(&request("x"), 65);
    assert_eq!(r.token_ids, vec![65]);
    assert_eq!(r.tokens_produced, 1);
    assert!(r.text.contains('A') || !r.text.is_empty());
    let _ = likely_token(0);
}

#[test]
fn devices_are_counted_in_the_listing() {
    let lines = vec!["GPU 0: A".to_string(), "".to_string(), "GPU 1: B".to_string()];
    assert_eq!(count_devices(&lines), 2);
    let g = GpuCapabilities::probed(false, true, &lines);
    assert_eq!(g.device_count, 2);
    assert!(g.ready_for_local_engine());
    assert!(!GpuCapabilities::probed(false, false, &vec![]).ready_for_local_engine());
}

#[test]
fn an_engine_is_told_where_to_listen() {
    let mut c = LocalEngineConfig::default();
    c.host = "127.0.0.1".to_string();
    c.port = 9;
    assert_eq!(c.engine_url(), "http://127.0.0.1:9");
    let args = c.args();
    assert!(args.windows(2).any(|w| w[0] == "--port" && w[1] == "9"));
    assert!(!c.log_file().is_empty());
}

#[test]
fn numbers_in_the_environment() {
    let some = |s: &str| Some(s.to_string());
    assert_eq!(env_number(&some("12")), Some(12));
    assert_eq!(env_number(&some("x")), None);
    assert_eq!(env_number(&None), None);
    assert_eq!(attn_heads_to_use(None, 64), 64);
    assert_eq!(attn_heads_to_use(Some(8), 64), 8);
    assert_eq!(attn_heads_to_use(Some(80), 64), 64);
    assert_eq!(attn_heads_to_use(Some(0), 64), 1);
    assert!(local_layer_count(Some(2), None, Some(40)) == 2);
    assert_eq!(resolve_sliding_window(Some(7), Some(9)), 7);
    assert_eq!(resolve_sliding_window(None, Some(9)), 9);
    assert!(max_compress_tokens(Some(3)) == 3);
    assert!(expert_cache_size(Some(3)) == 3);
}

#[test]
fn a_layout_follows_the_first_layer() {
    let toy = resolve_attn_layout(None, None, 2, 8);
    assert!(!toy.multihead);
    let full = resolve_attn_layout(
        Some(LayerShape { has_q_expand: true, kv_dim: 4, n_heads: Some(6) }),
        None,
        2,
        8,
    );
    assert!(full.multihead);
    assert_eq!((full.n_q_heads, full.head_dim), (6, 4));
    assert_eq!((full.pool_heads, full.pool_dim), (1, 4));
    let w = run_widths(&full, Some(2), None);
    assert_eq!((w.n_q, w.head_dim, w.q_width, w.rope_dim), (6, 4, 24, 2));
    assert_eq!(attention_width(2, 4, None), 8);
    assert_eq!(attention_width(2, 4, Some(5)), 5);
    assert_eq!(vocabulary(10, None), 10);
}

#[test]
fn embedding_and_head_must_agree() {
    assert_eq!(check_model_shapes(&[4, 3], &[4, 3]).unwrap(), (4, 3));
    assert!(check_model_shapes(&[4], &[4, 3]).is_err());
    assert!(check_model_shapes(&[4, 3], &[4, 2]).is_err());
}

#[test]
fn the_output_projection_goes_by_its_shape() {
    let shape =
        OutputShape { head_dim: 2, n_heads: 4, groups: 2, rank: 3, factor: Some((6, 4)) };
    assert!(matches!(output_path(&shape, 8), OutputPath::Grouped { groups: 2, group_in: 4 }));
}

#[test]
fn a_decode_stops_at_its_budget_or_its_end() {
    let mut req = request("ab");
    req.chunk_tokens = 3;
    assert_eq!(decode_budget(&req), 3);
    let kind = RunKind { vocab: 50, eos: Some(9), has_tokenizer: false, from_files: false };
    let mut run = DecodeRun::start(&req, vec![1, 2], kind);
    assert_eq!(run.next().unwrap().abs_pos, 1);
    assert_eq!(run.next().unwrap().tid, 2);
    run.sampled(5);
    assert_eq!(run.next().unwrap().abs_pos, 2);
    assert_eq!(run.next().unwrap().tid, 5);
    run.sampled(9);
    assert!(run.next().is_none());
    let mut run = DecodeRun::start(&req, vec![1], kind);
    for _ in 0..3 {
        run.sampled(4);
    }
    assert!(run.next().is_none());
    assert_eq!(run.decoded(), &vec![4, 4, 4]);
    let mut run = DecodeRun::start(&req, vec![1], kind);
    run.halt();
    assert!(run.next().is_none());
}

#[test]
fn toy_words_are_numbers_below_the_vocabulary() {
    let ids = toy_tokenize("hello", 50);
    assert!(!ids.is_empty());
    assert!(ids.iter().all(|i| *i < 50));
    assert_eq!(prompt_ids(&request("x"), Some(vec![3, 4]), 50), vec![3, 4]);
    assert_eq!(embed_token(&[0, 1, 2, 3, 4, 5], 3, 2, 4), vec![2, 3]);
    assert!(matches!(collapse_for(4, 4, true), Collapse::Keep));
    assert!(matches!(collapse_for(8, 4, true), Collapse::Weighted));
    assert!(matches!(collapse_for(8, 4, false), Collapse::Mean));
}

#[test]
fn made_up_weights_are_always_the_same() {
    assert_eq!(lattice(2, 3), vec![0, 17, 34, 131, 148, 165]);
    assert_eq!(lattice(9, 1)[8], 48);
    let d = draws(42, 3);
    let mut s: u64 = 42;
    for x in d {
        s = s.wrapping_mul(6364136223846793005).wrapping_add(1);
        assert_eq!(x as u64, s >> 33);
    }
    assert_eq!(F32Bits(7), F32Bits(7));
}

#[test]
fn each_token_attends_up_to_itself() {
    let req = PrefillRequest {
        q: vec![1, 2, 3, 4],
        k: vec![5, 6, 7, 8],
        v: vec![9, 10, 11, 12],
        num_tokens: 2,
        num_heads: 1,
        head_dim: 2,
        layout: KvLayout::Nhd,
    };
    let first = req.token_request(0);
    assert_eq!((first.q, first.k_cache, first.seq_len), (vec![1, 2], vec![5, 6], 1));
    let second = req.token_request(1);
    assert_eq!(second.q, vec![3, 4]);
    assert_eq!(second.k_cache, vec![5, 6, 7, 8]);
    assert_eq!(second.v_cache, vec![9, 10, 11, 12]);
    assert_eq!(second.seq_len, 2);
    assert!(second.attn_sink.is_none());
}

#[test]
fn packages_are_looked_for_in_order() {
    let found = site_candidates(&Some("/s".to_string()), &Some("/v".to_string()));
    assert_eq!(found.len(), 8);
    assert_eq!(found[0], "/s");
    assert_eq!(found[1], "/v/lib/python3.12/site-packages");
    assert_eq!(found[4], "/v/lib/python3.9/site-packages");
    assert_eq!(site_candidates(&None, &None).len(), 3);
    let there = vec![false, false, true, true, false, false, false, false];
    assert_eq!(discover_site_packages(&found, &there), Some(found[2].clone()));
    assert_eq!(discover_site_packages(&found, &vec![false; 8]), None);
    assert_eq!(FlashInferKernelConfig::on(None, None).device, "cuda:0");
    assert_eq!(FlashInferKernelConfig::on(None, Some("cuda:1".to_string())).device, "cuda:1");
}

/// The work of a whole chunk, with what is stored on the way.
fn walk_through(prompt: Vec<u32>, layers: usize, pool: &mut PagedKvPool<i32>) -> Vec<Work> {
    let kind = RunKind { vocab: 50, eos: None, has_tokenizer: true, from_files: true };
    let mut req = request("x");
    req.chunk_tokens = 2;
    let mut walk = ChunkWalk::start(&req, prompt, kind, layers);
    let mut seen = vec![];
    loop {
        let work = walk.work();
        seen.push(work);
        match work {
            Work::Project { .. } => {
                walk.store(pool, &[1], &[2]);
                walk.step();
            }
            Work::Attend { layer, pos } => {
                let stored = pool.materialize_kv(&walk.handle(layer)).2 as usize;
                if layers > 0 {
                    // The token itself is the last that is stored.
                    assert_eq!(stored, pos + 1);
                }
                walk.step();
            }
            Work::Sample => walk.choose_token(7),
            Work::Finish => return seen,
            _ => walk.step(),
        }
    }
}

#[test]
fn a_chunk_walks_through_every_layer() {
    let mut pool = PagedKvPool::new(4, 1, 1, 0);
    let seen = walk_through(vec![4, 5], 2, &mut pool);
    let mut want = vec![];
    let mut pass = |tid: u32, pos: usize, sample: bool| {
        want.push(Work::Embed { tid });
        for layer in 0..2 {
            want.push(Work::Project { layer, pos });
            want.push(Work::Attend { layer, pos });
            want.push(Work::Feed { layer, tid });
        }
        if sample {
            want.push(Work::Sample);
        }
    };
    pass(4, 0, false);
    pass(5, 1, false);
    // The last token of the prompt is refreshed, then the decoded one follows.
    pass(5, 1, true);
    pass(7, 2, true);
    want.push(Work::Finish);
    assert_eq!(seen, want);
    for layer in 0..2 {
        assert_eq!(pool.materialize_kv(&layer_handle("pfx-local-1", layer)).2, 3);
    }
}

#[test]
fn a_made_up_model_stores_the_prompt_alone() {
    let mut pool = PagedKvPool::new(4, 1, 1, 0);
    let seen = walk_through(vec![4, 5], 0, &mut pool);
    assert_eq!(
        seen,
        vec![
            Work::Embed { tid: 4 },
            Work::Project { layer: 0, pos: 0 },
            Work::Embed { tid: 5 },
            Work::Project { layer: 0, pos: 1 },
            Work::Embed { tid: 5 },
            Work::Attend { layer: 0, pos: usize::MAX },
            Work::Sample,
            Work::Embed { tid: 7 },
            Work::Attend { layer: 0, pos: usize::MAX },
            Work::Sample,
            Work::Finish,
        ]
    );
    assert_eq!(pool.materialize_kv("pfx-local-1").2, 2);
}

#[test]
fn a_failed_attention_ends_a_decode_only() {
    let kind = RunKind { vocab: 50, eos: None, has_tokenizer: true, from_files: true };
    let mut walk = ChunkWalk::start(&request("x"), vec![4], kind, 1);
    walk.step();
    walk.step();
    assert!(walk.attention_error("boom").is_none());
    for _ in 0..4 {
        walk.step();
    }
    assert_eq!(
        walk.attention_error("boom").unwrap().message(),
        "inference backend error: local decode L0: boom"
    );
    let mut later = request("x");
    later.decoded_so_far = 1;
    let mut walk = ChunkWalk::start(&later, vec![4], kind, 0);
    walk.step();
    assert_eq!(
        walk.attention_error("boom").unwrap().message(),
        "inference backend error: local decode: boom"
    );
    walk.halt();
    assert_eq!(walk.work(), Work::Finish);
    assert!(walk.decoded().is_empty());
    assert!(walk.finish(&later, None).finished);
}
