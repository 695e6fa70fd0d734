//! A backend that runs a kernel on made-up numbers: it proves the path, not
//! the model.
use vstd::prelude::*;

use crate::inference::chunked::{ChunkRequest, ChunkRequestView, ChunkResult, ChunkResultView};
use crate::step::FinishReason;

verus! {

/// Whether a number is that of a character.
pub open spec fn is_scalar(n: u32) -> bool {
    n < 0xd800 || (0xe000 <= n && n <= 0x10_ffff)
}

/// `char::from_u32`: the character of a number, if it is that of one.
pub assume_specification[ char::from_u32 ](i: u32) -> (res: Option<char>)
    ensures
        match res {
            Some(c) => is_scalar(i) && c == i as char,
            None => !is_scalar(i),
        },
;

/// The cache grows by one with each chunk, up to a bound.
#[derive(Debug, Clone, Copy, PartialEq, Eq, Structural)]
pub struct KernelSmokeBackend {
    pub num_heads: u32,
    pub head_dim: u32,
    pub cache_len: u32,
}

/// The cache grows no longer than this.
pub const CACHE_CAP: u32 = 64;

impl KernelSmokeBackend {
    pub fn cpu() -> (res: Self)
        ensures
            res == (KernelSmokeBackend { num_heads: 4, head_dim: 32, cache_len: 8 }),
    {
        KernelSmokeBackend { num_heads: 4, head_dim: 32, cache_len: 8 }
    }

    /// The length of the cache for the next chunk.
    pub fn next_len(&mut self) -> (res: u32)
        requires
            old(self).cache_len < u32::MAX,
        ensures
            res == if old(self).cache_len + 1 < CACHE_CAP {
                (old(self).cache_len + 1) as u32
            } else {
                CACHE_CAP
            },
            *final(self) == (KernelSmokeBackend { cache_len: res, ..*old(self) }),
    {
        let n: u32 = self.cache_len + 1;
        self.cache_len = if n < CACHE_CAP {
            n
        } else {
            CACHE_CAP
        };
        self.cache_len
    }
}

/// The token that is made likely, given how much attention gave: a printable
/// one.
pub fn likely_token(energy: u32) -> (res: u32)
    ensures
        res == energy % 200 + 32,
        32 <= res < 232,
{
    energy % 200 + 32
}

/// The character of a token; a question mark where it has none.
pub open spec fn token_char(n: u32) -> char {
    if is_scalar(n) {
        n as char
    } else {
        '?'
    }
}

/// Whether a chunk of one token finishes the generation: the tokens asked for
/// are there, or eight are.
pub open spec fn smoke_done(req: ChunkRequestView) -> bool {
    let n = req.decoded_so_far + 1;
    let least = if req.chunk_tokens < req.max_tokens {
        req.chunk_tokens
    } else {
        req.max_tokens
    };
    n >= (if least < 1 {
        1
    } else {
        least
    }) || n >= 8
}

/// The result of a chunk, given the token that the kernel chose.
pub fn smoke_result(req: &ChunkRequest, token_id: u32) -> (res: ChunkResult)
    requires
        req@.decoded_so_far < u32::MAX,
    ensures
        res@ == (ChunkResultView {
            text: seq![token_char(token_id)],
            token_ids: seq![token_id],
            tokens_produced: 1,
            finished: smoke_done(req@),
            finish_reason: if smoke_done(req@) {
                Some(FinishReason::Stop)
            } else {
                None
            },
            tool_call: None,
            new_prefix: None,
            cache_hit_tokens: 0,
        }),
{
    let c = match char::from_u32(token_id) {
        Some(c) => c,
        None => '?',
    };
    let mut says = String::new();
    says.push(c);
    assert(says@ =~= seq![token_char(token_id)]);
    let mut ids: Vec<u32> = Vec::new();
    ids.push(token_id);
    assert(ids@ =~= seq![token_id]);
    let n: u32 = req.decoded_so_far + 1;
    let cut: u32 = if req.chunk_tokens < req.max_tokens {
        req.chunk_tokens
    } else {
        req.max_tokens
    };
    let least: u32 = if cut < 1 {
        1
    } else {
        cut
    };
    let finished = n >= least || n >= 8;
    let res = ChunkResult {
        text: says,
        token_ids: ids,
        tokens_produced: 1,
        finished,
        finish_reason: if finished {
            Some(FinishReason::Stop)
        } else {
            None
        },
        tool_call: None,
        new_prefix: None,
        cache_hit_tokens: 0,
    };
    res
}

/// A token shows as the character of its number where there is one.
pub proof fn law_token_shows(n: u32)
    ensures
        n < 0xd800 ==> token_char(n) as u32 == n,
        0xd800 <= n < 0xe000 || n > 0x10_ffff ==> token_char(n) == '?',
{
}

/// A generation of one token at a time goes on until the chunk or the limit is
/// filled, or eight tokens are there, and no longer.
pub proof fn law_smoke_done(req: ChunkRequestView)
    ensures
        req.decoded_so_far + 1 >= req.max_tokens ==> smoke_done(req),
        req.decoded_so_far + 1 >= req.chunk_tokens ==> smoke_done(req),
        req.decoded_so_far + 1 >= 8 ==> smoke_done(req),
        req.decoded_so_far + 1 < req.max_tokens && req.decoded_so_far + 1 < req.chunk_tokens
            && req.decoded_so_far + 1 < 8 ==> !smoke_done(req),
{
}

} // verus!
