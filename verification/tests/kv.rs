//! Keys and values: how they are stored, picked, compressed and read back.

use traject::ids::TrajectoryId;
use traject::inference::compress::{
    append_index, append_latent, filter_compress_pool, forget_layers, push_token, tokens_to_score,
    topk_compress_by_indexer, CompressLayerState, CompressShape, IndexRun,
};
use traject::inference::kv_pool::{
    compress_handle, free_layers, index_handle, layer_handle, materialize_compress_pool,
    store_layer_kv_at_pos, PagedKvPool,
};
use traject::inference::kv_select::{
    build_sparse_kv_indices, expand_hc_streams, expand_kv_mqa, gather_kv_by_idx,
    prepare_kv_for_decode, sink_for_heads, slice_kv_window,
};
use traject::inference::local_run::{attention_fits, attention_input, AttnReading};
use traject::inference::rank::{best_first, order_key, order_keys, topk_in_order};
use traject::named::NamedTable;

fn pool() -> PagedKvPool<f32> {
    PagedKvPool::new(8, 1, 2, 0.0f32)
}

#[test]
fn overwrite_last_kv_replaces_tail() {
    let mut pool = pool();
    let k1 = vec![1.0f32, 2.0];
    let v1 = vec![3.0f32, 4.0];
    pool.append_kv("p", &k1, &v1);
    let k2 = vec![5.0f32, 6.0];
    let v2 = vec![7.0f32, 8.0];
    pool.append_kv("p", &k2, &v2);
    assert!(pool.overwrite_last_kv("p", &[9.0, 10.0], &[11.0, 12.0]));
    let (k, v, n) = pool.materialize_kv("p");
    assert_eq!(n, 2);
    assert_eq!(k, vec![1.0, 2.0, 9.0, 10.0]);
    assert_eq!(v, vec![3.0, 4.0, 11.0, 12.0]);
}

#[test]
fn store_layer_kv_at_pos_append_then_overwrite() {
    let mut pool = pool();
    let k0 = vec![1.0f32, 0.0];
    let v0 = vec![0.0f32, 1.0];
    // Position 0 of an empty cache is appended.
    let (n, app) = store_layer_kv_at_pos(&mut pool, "p", &k0, &v0, 0);
    assert_eq!(n, 1);
    assert!(app);
    // Position 0 again, with one token there, is written over.
    let k0b = vec![2.0f32, 2.0];
    let (n, app) = store_layer_kv_at_pos(&mut pool, "p", &k0b, &k0b, 0);
    assert_eq!(n, 1);
    assert!(!app);
    // Position 1 is a second token.
    let k1 = vec![3.0f32, 3.0];
    let (n, app) = store_layer_kv_at_pos(&mut pool, "p", &k1, &k1, 1);
    assert_eq!(n, 2);
    assert!(app);
    let (k, _, n) = pool.materialize_kv("p");
    assert_eq!(n, 2);
    assert_eq!(k, vec![2.0, 2.0, 3.0, 3.0]);
}

#[test]
fn expand_kv_mqa_repeats_heads() {
    // Two tokens of two values, three heads.
    let kv = vec![1.0, 2.0, 3.0, 4.0];
    let out = expand_kv_mqa(&kv, 2, 3, 2, 0.0);
    assert_eq!(out.len(), 2 * 3 * 2);
    assert_eq!(&out[0..2], &[1.0, 2.0]);
    assert_eq!(&out[2..4], &[1.0, 2.0]);
    assert_eq!(&out[4..6], &[1.0, 2.0]);
    assert_eq!(&out[6..8], &[3.0, 4.0]);
}

#[test]
fn expand_hc_repeats() {
    let h = vec![1.0f32, 2.0];
    let s = expand_hc_streams(&h, 3);
    assert_eq!(s, vec![1.0, 2.0, 1.0, 2.0, 1.0, 2.0]);
}

#[test]
fn slice_kv_window_keeps_tail() {
    // Four tokens of two values: the last two stay.
    let k: Vec<f32> = (0..8).map(|x| x as f32).collect();
    let v: Vec<f32> = (10..18).map(|x| x as f32).collect();
    let (k2, v2, sl) = slice_kv_window(k, v, 4, 2, 2);
    assert_eq!(sl, 2);
    assert_eq!(k2, vec![4.0, 5.0, 6.0, 7.0]);
    assert_eq!(v2, vec![14.0, 15.0, 16.0, 17.0]);
}

#[test]
fn slice_kv_window_noop_when_short() {
    let k = vec![1.0f32, 2.0];
    let v = vec![3.0f32, 4.0];
    let (k2, v2, sl) = slice_kv_window(k.clone(), v.clone(), 1, 2, 128);
    assert_eq!(sl, 1);
    assert_eq!(k2, k);
    assert_eq!(v2, v);
}

#[test]
fn sparse_indices_window_and_stride() {
    // Twenty tokens, a window of four, every fourth of those before it.
    let idxs = build_sparse_kv_indices(20, 4, 4, 512);
    assert_eq!(idxs, vec![3, 7, 11, 15, 16, 17, 18, 19]);
}

#[test]
fn sparse_indices_swa_only_when_ratio_one() {
    let idxs = build_sparse_kv_indices(10, 4, 0, 512);
    assert_eq!(idxs, vec![6, 7, 8, 9]);
    let idxs = build_sparse_kv_indices(10, 4, 1, 512);
    assert_eq!(idxs, vec![6, 7, 8, 9]);
}

#[test]
fn gather_kv_picks_tokens() {
    // Three tokens of two values.
    let k: Vec<f32> = (0..6).map(|x| x as f32).collect();
    let v: Vec<f32> = (10..16).map(|x| x as f32).collect();
    let (k2, v2, n) = gather_kv_by_idx(&k, &v, 3, 2, &[0, 2], 0.0);
    assert_eq!(n, 2);
    assert_eq!(k2, vec![0.0, 1.0, 4.0, 5.0]);
    assert_eq!(v2, vec![10.0, 11.0, 14.0, 15.0]);
}

#[test]
fn indexer_topk_picks_highest_score() {
    // Two compressed tokens, of which the first scores higher.
    let ck = vec![1.0f32, 0.0, 0.0, 1.0];
    let cv = ck.clone();
    let scores = [1.0f32.to_bits(), (-1.0f32).to_bits()];
    let (ok, _ov, n) = topk_compress_by_indexer(&scores, 1, &(ck, cv, 2), 2);
    assert_eq!(n, 1);
    assert_eq!(ok, vec![1.0, 0.0]);
}

#[test]
fn compressor_nonoverlap_emits_every_ratio() {
    let shape = CompressShape { ratio: 2, head_dim: 2, out_dim: 2, overlap: false };
    let mut st = CompressLayerState::new(shape, 0.0f32, f32::NEG_INFINITY);
    let x = vec![1.0f32, 2.0];
    assert!(st.push(shape, &x, &x, 0, 0.0, f32::NEG_INFINITY).is_none());
    let out = st.push(shape, &x, &x, 1, 0.0, f32::NEG_INFINITY).expect("emit");
    assert_eq!(out.dims, 2);
    assert!(out.kv.iter().all(|v| v.is_finite()));
    // And again for the next two.
    assert!(st.push(shape, &x, &x, 2, 0.0, f32::NEG_INFINITY).is_none());
    assert!(st.push(shape, &x, &x, 3, 0.0, f32::NEG_INFINITY).is_some());
    assert_eq!(st.tokens_seen, 4);
}

#[test]
fn an_overlapping_block_sees_the_one_before() {
    let shape = CompressShape { ratio: 2, head_dim: 1, out_dim: 2, overlap: true };
    let low = -1;
    let mut st = CompressLayerState::new(shape, 0, low);
    for pos in 0..4usize {
        let kv = vec![10 * pos as i32 + 1, 10 * pos as i32 + 2];
        let block = st.push(shape, &kv, &kv, pos, 0, low);
        assert_eq!(block.is_some(), pos % 2 == 1);
        if pos == 3 {
            // The first halves of the block before, then the second halves of
            // this one.
            assert_eq!(block.unwrap().kv, vec![1, 11, 22, 32]);
        }
    }
}

#[test]
fn pages_fill_and_go() {
    let mut p = PagedKvPool::new(2, 1, 1, 0);
    assert_eq!(p.pages_allocated(), 0);
    for i in 0..5 {
        p.append_kv("a", &[i], &[10 * i]);
    }
    assert_eq!(p.pages_allocated(), 3);
    p.append_kv("b", &[7], &[8]);
    assert_eq!(p.pages_allocated(), 4);
    assert_eq!(p.materialize_kv("a"), (vec![0, 1, 2, 3, 4], vec![0, 10, 20, 30, 40], 5));
    assert_eq!(p.free_prefix("a"), 3);
    assert_eq!(p.materialize_kv("a"), (vec![], vec![], 0));
    assert_eq!(p.materialize_kv("b"), (vec![7], vec![8], 1));
    assert_eq!(p.free_prefix("a"), 0);
    assert!(!p.overwrite_last_kv("a", &[1], &[1]));
    assert_eq!(p.width(), 1);
}

#[test]
fn a_bound_prefix_keeps_its_pages() {
    let mut p = PagedKvPool::new(2, 1, 1, 0);
    p.append_kv("a", &[1], &[2]);
    p.bind_prefix(TrajectoryId(1), "a".to_string());
    assert_eq!(p.materialize_kv("a"), (vec![1], vec![2], 1));
}

#[test]
fn layers_have_their_own_streams() {
    assert_eq!(layer_handle("p", 12), "p:L12");
    assert_eq!(compress_handle("p:L0"), "p:L0:C");
    assert_eq!(index_handle("p:L0"), "p:L0:I");
    let mut p = PagedKvPool::new(4, 1, 1, 0);
    for layer in 0..3 {
        p.append_kv(&layer_handle("p", layer), &[layer], &[layer]);
    }
    append_latent(&mut p, "p:L1", vec![5], 0);
    assert_eq!(materialize_compress_pool(&p, "p:L1"), Some((vec![5], vec![5], 1)));
    assert_eq!(free_layers(&mut p, "p", 3), 4);
    assert_eq!(p.materialize_kv(&layer_handle("p", 1)).2, 0);
    assert_eq!(materialize_compress_pool(&p, "p:L1"), None);
}

#[test]
fn a_decode_reads_the_window_and_the_compressed() {
    // One head: the window as it is stored.
    let cache = (vec![1, 2, 3], vec![4, 5, 6], 3);
    assert_eq!(
        prepare_kv_for_decode(false, cache.clone(), 1, 1, 2, 0, 8, None, 0),
        (vec![2, 3], vec![5, 6], 2)
    );
    // Two heads: the last two, each twice.
    assert_eq!(
        prepare_kv_for_decode(true, cache.clone(), 2, 1, 2, 0, 8, None, 0),
        (vec![2, 2, 3, 3], vec![5, 5, 6, 6], 2)
    );
    // With a compressed token behind.
    let (k, v, n) =
        prepare_kv_for_decode(true, cache, 1, 1, 2, 4, 8, Some((vec![9], vec![8], 1)), 0);
    assert_eq!((k, v, n), (vec![2, 3, 9], vec![5, 6, 8], 3));
}

#[test]
fn sinks_are_given_to_each_head() {
    assert_eq!(sink_for_heads(&None::<Vec<i32>>, 2, 0), None);
    assert_eq!(sink_for_heads(&Some(vec![1, 2, 3]), 2, 0), Some(vec![1, 2]));
}

#[test]
fn floats_are_ordered_by_their_bits() {
    let order = [f32::NEG_INFINITY, -2.5, -1e-30, 0.0, 1e-30, 3.0, f32::INFINITY];
    for w in order.windows(2) {
        assert!(order_key(w[0].to_bits()) < order_key(w[1].to_bits()));
    }
    assert_eq!(order_key(0.0f32.to_bits()), order_key((-0.0f32).to_bits()));
    let bits: Vec<u32> = [1.0f32, 3.0, 2.0, 3.0].iter().map(|x| x.to_bits()).collect();
    let keys = order_keys(&bits);
    assert_eq!(best_first(&keys, 3), vec![1, 3, 2]);
    assert_eq!(topk_in_order(&keys, 3), vec![1, 2, 3]);
    assert_eq!(topk_in_order(&keys, 9), vec![0, 1, 2, 3]);
}

#[test]
fn only_indexed_tokens_are_scored() {
    assert_eq!(tokens_to_score(None, true, true, Some(3)), None);
    assert_eq!(tokens_to_score(Some(3), false, true, Some(3)), None);
    assert_eq!(tokens_to_score(Some(3), true, true, Some(2)), Some(2));
    let pool = Some((vec![1, 2], vec![3, 4], 2));
    assert_eq!(filter_compress_pool(pool.clone(), None, 1, 1), pool);
}

#[test]
fn a_layer_state_is_kept_by_name() {
    let shape = CompressShape { ratio: 2, head_dim: 1, out_dim: 1, overlap: false };
    let mut states: NamedTable<CompressLayerState<i32>> = NamedTable::new();
    let key = compress_handle("p:L0");
    assert!(push_token(&mut states, &key, shape, &vec![1], &vec![1], 0, 0, -9).is_none());
    let block = push_token(&mut states, &key, shape, &vec![2], &vec![3], 1, 0, -9).unwrap();
    assert_eq!((block.kv, block.score), (vec![1, 2], vec![1, 3]));
    let mut index: NamedTable<IndexRun<i32>> = NamedTable::new();
    let ikey = index_handle("p:L0");
    append_index(&mut index, &ikey, &vec![7, 8]);
    append_index(&mut index, &ikey, &vec![9, 10]);
    assert_eq!(index.get(&ikey).unwrap().latents, vec![7, 8, 9, 10]);
    assert_eq!(index.get(&ikey).unwrap().count, 2);
    forget_layers(&mut states, &mut index, "p", 1);
    assert!(!states.contains(&key));
    assert!(!index.contains(&ikey));
}

#[test]
fn attention_reads_what_was_stored() {
    let mut p = PagedKvPool::new(8, 1, 1, 0);
    let how = AttnReading {
        multihead: true,
        n_q: 1,
        head_dim: 1,
        window: 2,
        compress_ratio: 0,
        max_compress: 8,
        topk: 1,
        zero: 0,
    };
    assert!(attention_input(&p, "p", 0, &how, None).is_none());
    for i in 0..3 {
        p.append_kv("p", &[i], &[i + 10]);
    }
    let input = attention_input(&p, "p", 2, &how, None).unwrap();
    assert_eq!((input.k, input.v, input.seq_len), (vec![1, 2], vec![11, 12], 2));
}

#[test]
fn what_is_held_is_counted() {
    let mut pool: PagedKvPool<u8> = PagedKvPool::new(2, 1, 1, 0);
    assert_eq!(pool.tokens_held("p"), 0);
    for i in 0..5u8 {
        pool.append_kv("p", &[i], &[i]);
    }
    assert_eq!(pool.tokens_held("p"), 5);
    assert_eq!(pool.tokens_held("q"), 0);
    assert!(pool.may_grow());
    let how = |n_q: usize, head_dim: usize| AttnReading {
        multihead: false,
        n_q,
        head_dim,
        window: 8,
        compress_ratio: 0,
        max_compress: 1,
        topk: 1,
        zero: 0u8,
    };
    assert!(attention_fits(&pool, "p", &how(1, 1)));
    assert!(!attention_fits(&pool, "p", &how(usize::MAX, 2)));
    assert!(!attention_fits(&pool, "p", &how(1, usize::MAX / 4)));
    assert!(attention_fits(&pool, "q", &how(1, usize::MAX)));
}
