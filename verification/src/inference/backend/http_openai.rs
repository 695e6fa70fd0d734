//! A server that speaks chat completions: each chunk is a whole completion.
use vstd::prelude::*;

use crate::inference::chunked::{ChunkRequest, ChunkRequestView, ChunkResult, ChunkResultView};
use crate::step::{F32Bits, FinishReason};
use crate::text;
use crate::text::{list_of_u32, same};

verus! {

/// What is asked of the server.
#[derive(Debug)]
pub struct ChatBody {
    pub prompt: String,
    pub max_tokens: u32,
    pub temperature: F32Bits,
}

impl ChunkRequestView {
    /// The prompt of a request: its text, or else its tokens, shown.
    pub open spec fn prompt(self) -> Seq<char> {
        match self.delta.text {
            Some(t) => t,
            None => "tokens:"@ + text::list_text(text::nats_of_u32(self.delta.token_ids), ", "@),
        }
    }
}

/// The prompt of a request.
pub fn prompt_of(req: &ChunkRequest) -> (res: String)
    ensures
        res@ == req@.prompt(),
{
    match &req.delta.text {
        Some(t) => t.clone(),
        None => {
            let mut s = "tokens:".to_string();
            s.append(list_of_u32(req.delta.token_ids.as_slice(), ", ").as_str());
            s
        },
    }
}

/// What is asked of the server for a chunk: one token at least, at a
/// temperature of 0.7 where none is given.
pub fn chat_body(req: &ChunkRequest) -> (res: ChatBody)
    ensures
        res.prompt@ == req@.prompt(),
        res.max_tokens == if req@.chunk_tokens < 1 {
            1
        } else {
            req@.chunk_tokens
        },
        res.temperature == match req@.constraints.temperature {
            Some(t) => t,
            None => F32Bits(0x3f33_3333),
        },
{
    ChatBody {
        prompt: prompt_of(req),
        max_tokens: if req.chunk_tokens < 1 {
            1
        } else {
            req.chunk_tokens
        },
        temperature: match req.constraints.temperature {
            Some(t) => t,
            None => F32Bits(0x3f33_3333),
        },
    }
}

/// Why a generation ended, by the server's word for it.
pub open spec fn reason_of(word: Seq<char>) -> FinishReason {
    if word == "length"@ {
        FinishReason::Length
    } else if word == "tool_calls"@ || word == "function_call"@ {
        FinishReason::ToolCall
    } else {
        FinishReason::Stop
    }
}

/// Why a generation ended, by the server's word for it.
pub fn finish_reason(word: &str) -> (res: FinishReason)
    ensures
        res == reason_of(word@),
{
    if same(word, "length") {
        FinishReason::Length
    } else if same(word, "tool_calls") || same(word, "function_call") {
        FinishReason::ToolCall
    } else {
        FinishReason::Stop
    }
}

/// The bytes of a text as tokens.
pub open spec fn byte_tokens(s: Seq<char>) -> Seq<u32> {
    vstd::utf8::encode_utf8(s).map_values(|b: u8| b as u32)
}

/// The bytes of a text as tokens.
pub fn text_tokens(s: &str) -> (res: Vec<u32>)
    ensures
        res@ == byte_tokens(s@),
{
    let bytes = s.as_bytes();
    let mut out: Vec<u32> = Vec::new();
    let mut i: usize = 0;
    while i < bytes.len()
        invariant
            i <= bytes@.len(),
            bytes@ == vstd::utf8::encode_utf8(s@),
            out@ =~= byte_tokens(s@).take(i as int),
        decreases bytes@.len() - i,
    {
        out.push(bytes[i] as u32);
        i += 1;
    }
    assert(out@ =~= byte_tokens(s@));
    out
}

/// The first choice of a completion: what it says, and why it ended.
#[derive(Debug)]
pub struct Choice {
    pub content: Option<String>,
    pub finish_reason: Option<String>,
}

/// The result that a completion stands for: no choice says nothing and
/// stopped.
pub open spec fn completion(content: Option<Seq<char>>, finish: Option<Seq<char>>) -> ChunkResultView {
    let said = match content {
        Some(t) => t,
        None => Seq::empty(),
    };
    ChunkResultView {
        text: said,
        token_ids: byte_tokens(said),
        tokens_produced: byte_tokens(said).len() as u32,
        finished: true,
        finish_reason: Some(
            reason_of(
                match finish {
                    Some(w) => w,
                    None => "stop"@,
                },
            ),
        ),
        tool_call: None,
        new_prefix: None,
        cache_hit_tokens: 0,
    }
}

/// The result of a chunk, given the first choice of the completion.
pub fn chunk_result(first: Option<Choice>) -> (res: ChunkResult)
    ensures
        res@ == match first {
            Some(c) => completion(text::opt_chars(c.content), text::opt_chars(c.finish_reason)),
            None => completion(None, None),
        },
{
    let (content, finish) = match first {
        Some(c) => (c.content, c.finish_reason),
        None => (None, None),
    };
    let said = match content {
        Some(t) => t,
        None => String::new(),
    };
    let token_ids = text_tokens(said.as_str());
    let reason = match finish {
        Some(w) => finish_reason(w.as_str()),
        None => finish_reason("stop"),
    };
    let n: u32 = #[verifier::truncate]
    (token_ids.len() as u32);
    let res = ChunkResult {
        text: said,
        token_ids,
        tokens_produced: n,
        finished: true,
        finish_reason: Some(reason),
        tool_call: None,
        new_prefix: None,
        cache_hit_tokens: 0,
    };
    res
}

/// A prompt that is a text is asked as it is; one of tokens is asked as their
/// listing.
pub proof fn law_prompt_asked(req: ChunkRequestView)
    ensures
        req.delta.text matches Some(t) ==> req.prompt() == t,
        req.delta.text is None ==> req.prompt() == "tokens:"@ + text::list_text(
            Seq::new(req.delta.token_ids.len(), |i: int| req.delta.token_ids[i] as nat),
            ", "@,
        ),
{
    assert(text::nats_of_u32(req.delta.token_ids) =~= Seq::new(
        req.delta.token_ids.len(),
        |i: int| req.delta.token_ids[i] as nat,
    ));
}

/// What the server said is what the chunk says, word for word, with the text's
/// bytes as its tokens; the chunk is finished, and for the reason told.
pub proof fn law_completion_is_kept(said: Seq<char>, finish: Option<Seq<char>>)
    ensures
        completion(Some(said), finish).text == said,
        completion(Some(said), finish).token_ids.len() == vstd::utf8::encode_utf8(said).len(),
        forall|i: int|
            0 <= i < vstd::utf8::encode_utf8(said).len() ==> #[trigger] completion(
                Some(said),
                finish,
            ).token_ids[i] == vstd::utf8::encode_utf8(said)[i] as u32,
        vstd::utf8::encode_utf8(said).len() <= u32::MAX ==> completion(
            Some(said),
            finish,
        ).tokens_produced == vstd::utf8::encode_utf8(said).len(),
        completion(Some(said), finish).finished,
        completion(Some(said), finish).tool_call is None,
        completion(Some(said), finish).new_prefix is None,
        completion(Some(said), finish).cache_hit_tokens == 0,
        finish is None ==> completion(Some(said), finish).finish_reason == Some(
            FinishReason::Stop,
        ),
        finish matches Some(w) ==> completion(Some(said), finish).finish_reason == Some(
            reason_of(w),
        ),
        completion(None, finish).text.len() == 0,
{
    reveal_strlit("stop");
    reveal_strlit("length");
    reveal_strlit("tool_calls");
    reveal_strlit("function_call");
    assert("stop"@.len() == 4 && "length"@.len() == 6);
    assert("tool_calls"@.len() == 10 && "function_call"@.len() == 13);
}

/// The server's words for an end: running into the limit and calling a tool are
/// told apart from stopping, which any other word means.
pub proof fn law_reasons(word: Seq<char>)
    ensures
        reason_of("length"@) is Length,
        reason_of("tool_calls"@) is ToolCall,
        reason_of("function_call"@) is ToolCall,
        word != "length"@ && word != "tool_calls"@ && word != "function_call"@ ==> reason_of(word)
            is Stop,
{
    reveal_strlit("length");
    reveal_strlit("tool_calls");
    reveal_strlit("function_call");
    assert("length"@.len() == 6 && "tool_calls"@.len() == 10 && "function_call"@.len() == 13);
}

/// A text without tokens of its own counts by its bytes, each as its number.
pub proof fn law_bytes_as_tokens(s: Seq<char>, i: int)
    requires
        0 <= i < vstd::utf8::encode_utf8(s).len(),
    ensures
        byte_tokens(s).len() == vstd::utf8::encode_utf8(s).len(),
        byte_tokens(s)[i] == vstd::utf8::encode_utf8(s)[i],
{
}

} // verus!
