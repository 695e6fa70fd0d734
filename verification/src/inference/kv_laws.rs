//! What holds of stored keys and values, whatever is done to them.
use vstd::prelude::*;

use crate::ids::TrajectoryId;
use crate::inference::kv_pool::{
    compress_key, index_key, layer_key, layers_freed, not_of, pages_for, KvPoolView, Stream,
};
use crate::text;

verus! {

/// A token that is appended brings its keys and values behind those that are
/// there, and opens a page where the last one is full.
pub proof fn law_appended_values<T>(pool: KvPoolView<T>, p: Seq<char>, k: Seq<T>, v: Seq<T>)
    requires
        pool.page_tokens >= 1,
    ensures
        pool.appended(p, k, v).stream(p).k == pool.stream(p).k + k,
        pool.appended(p, k, v).stream(p).v == pool.stream(p).v + v,
        pool.appended(p, k, v).stream(p).tokens == pool.stream(p).tokens + 1,
        pool.stream(p).tokens % pool.page_tokens == 0 ==> pool.appended(p, k, v).pages == pool.pages
            + 1,
        pool.stream(p).tokens % pool.page_tokens != 0 ==> pool.appended(p, k, v).pages
            == pool.pages,
        pool.appended(p, k, v).bound == pool.bound,
        Stream::<T>::none().tokens == 0 && Stream::<T>::none().k.len() == 0,
{
}

/// A store at the position of the last token refreshes it; at any other it adds
/// a token.
pub proof fn law_stored_at<T>(
    pool: KvPoolView<T>,
    p: Seq<char>,
    k: Seq<T>,
    v: Seq<T>,
    abs_pos: nat,
)
    ensures
        pool.stream(p).tokens == abs_pos + 1 ==> pool.stored(p, k, v, abs_pos) == pool.overwritten(
            p,
            k,
            v,
        ) && pool.stored(p, k, v, abs_pos).stream(p).tokens == pool.stream(p).tokens,
        pool.stream(p).tokens != abs_pos + 1 ==> pool.stored(p, k, v, abs_pos) == pool.appended(
            p,
            k,
            v,
        ) && pool.stored(p, k, v, abs_pos).stream(p).tokens == pool.stream(p).tokens + 1,
{
}

/// Pages are as many as it takes and no more.
pub proof fn law_pages_for(tokens: nat, page_tokens: nat)
    requires
        page_tokens >= 1,
    ensures
        pages_for(tokens, page_tokens) * page_tokens >= tokens,
        tokens > 0 ==> (pages_for(tokens, page_tokens) - 1) * page_tokens < tokens,
        tokens == 0 ==> pages_for(tokens, page_tokens) == 0,
{
    let a = (tokens + page_tokens - 1) as int;
    let q = a / page_tokens as int;
    vstd::arithmetic::div_mod::lemma_fundamental_div_mod(a, page_tokens as int);
    assert(page_tokens * q == q * page_tokens) by (nonlinear_arith);
    assert((q - 1) * page_tokens == q * page_tokens - page_tokens) by (nonlinear_arith);
    if tokens == 0 {
        assert(q == 0) by {
            vstd::arithmetic::div_mod::lemma_basic_div(a, page_tokens as int);
        }
    }
}

/// A trajectory works on the handle that it was bound to last, and on no other;
/// other trajectories keep theirs.
pub proof fn law_bound_to_one<T>(pool: KvPoolView<T>, t: TrajectoryId, p: Seq<char>, i: int)
    requires
        0 <= i < pool.binding(t, p).bound.len(),
    ensures
        pool.binding(t, p).bound.last() == (t, p),
        pool.binding(t, p).bound[i].0 == t ==> pool.binding(t, p).bound[i].1 == p,
        pool.binding(t, p).streams == pool.streams,
{
    let kept = pool.bound.filter(not_of(t));
    if i < kept.len() {
        pool.bound.lemma_filter_pred(not_of(t), i);
    }
}

/// The handles of a prefix's layers stand apart from each other, and so do those
/// of what a layer compresses and indexes.
pub proof fn law_handles_apart(prefix: Seq<char>, a: nat, b: nat)
    ensures
        a != b ==> layer_key(prefix, a) != layer_key(prefix, b),
        compress_key(prefix) != prefix,
        index_key(prefix) != prefix,
        compress_key(prefix) != index_key(prefix),
        text::begins(layer_key(prefix, a), prefix),
        text::ends(layer_key(prefix, a), text::dec(a)),
{
    reveal_strlit(":C");
    reveal_strlit(":I");
    assert(":C"@.len() == 2 && ":I"@.len() == 2 && ":C"@[1] == 'C' && ":I"@[1] == 'I');
    let n = prefix.len() as int;
    assert(compress_key(prefix)[n + 1] == 'C' && index_key(prefix)[n + 1] == 'I');
    let head = prefix + ":L"@;
    assert(layer_key(prefix, a).skip(head.len() as int) =~= text::dec(a));
    assert(layer_key(prefix, b).skip(head.len() as int) =~= text::dec(b));
    assert(layer_key(prefix, a).skip(layer_key(prefix, a).len() - text::dec(a).len()) =~= text::dec(
        a,
    ));
    assert(layer_key(prefix, a).take(n) =~= prefix);
    if a != b {
        text::law_decimals_differ(a, b);
    }
}

/// After a handle has been freed with its layers, nothing is left under it, nor
/// under any of its layers, nor of what they compressed; a handle that is none
/// of these is as it was.
pub proof fn law_layers_forgotten<T>(
    pool: KvPoolView<T>,
    prefix: Seq<char>,
    n: nat,
    layer: nat,
    other: Seq<char>,
)
    ensures
        layers_freed(pool, prefix, n).stream(prefix) == Stream::<T>::none(),
        layer < n ==> layers_freed(pool, prefix, n).stream(layer_key(prefix, layer)) == Stream::<
            T,
        >::none(),
        layer < n ==> layers_freed(pool, prefix, n).stream(
            compress_key(layer_key(prefix, layer)),
        ) == Stream::<T>::none(),
        other != prefix && (forall|l: nat|
            l < n ==> other != #[trigger] layer_key(prefix, l) && other != compress_key(
                layer_key(prefix, l),
            )) ==> layers_freed(pool, prefix, n).stream(other) == pool.stream(other),
    decreases n,
{
    if n > 0 {
        law_layers_forgotten(pool, prefix, (n - 1) as nat, layer, other);
        let last = layer_key(prefix, (n - 1) as nat);
        assert(layers_freed(pool, prefix, n) == layers_freed(
            pool,
            prefix,
            (n - 1) as nat,
        ).freed(last).freed(compress_key(last)));
    }
}

} // verus!
