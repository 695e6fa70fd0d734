//! The native engine protocol: one request, then a line for each token.
use vstd::prelude::*;

use crate::error::{TrajectError, TrajectErrorView};
use crate::ids;
use crate::inference::backend::http_openai;
use crate::inference::backend::http_openai::{prompt_of, text_tokens};
use crate::inference::chunked::{ChunkRequest, ChunkResult, ChunkResultView};
use crate::step::{F32Bits, FinishReason};
use crate::text;
use crate::text::{chars_of, clone_opt, same, text_of, trim, trim_end_char};

verus! {

/// The path of the engine at `base`, which may end in slashes.
pub fn endpoint(base: &str, path: &str) -> (res: String)
    ensures
        res@ == text::trimmed_end(base@, '/') + path@,
{
    let mut s = trim_end_char(base, '/');
    s.append(path);
    s
}

/// What the engine is asked for a chunk.
#[derive(Debug)]
pub struct EngineRequest {
    pub request_id: String,
    pub prompt: String,
    pub max_tokens: u32,
    pub temperature: F32Bits,
    pub top_p: F32Bits,
    pub trajectory_id: String,
    pub session_id: Option<String>,
    pub prefix_id: Option<String>,
    pub step_id: String,
}

/// What the engine is asked for a chunk: trajectory, session and prefix go
/// along, so that it can find what it has.
pub fn engine_request(req: &ChunkRequest) -> (res: EngineRequest)
    ensures
        res.request_id@ == ids::hyphenated(req@.trajectory_id.0) + ":"@ + ids::hyphenated(
            req@.step_id.0,
        ),
        res.prompt@ == req@.prompt(),
        res.max_tokens == {
            let chunk = if req@.chunk_tokens < 1 {
                1
            } else {
                req@.chunk_tokens
            };
            let most = if req@.max_tokens < 1 {
                1
            } else {
                req@.max_tokens
            };
            if chunk < most {
                chunk
            } else {
                most
            }
        },
        res.temperature == match req@.constraints.temperature {
            Some(t) => t,
            None => F32Bits(0),
        },
        res.top_p == match req@.constraints.top_p {
            Some(t) => t,
            None => F32Bits(0x3f80_0000),
        },
        res.trajectory_id@ == ids::hyphenated(req@.trajectory_id.0),
        text::opt_chars(res.session_id) == req@.session_id,
        text::opt_chars(res.prefix_id) == match req@.prefix_hint {
            Some(h) => Some(h),
            None => match req@.prefix {
                Some(p) => Some(ids::hyphenated(p.0)),
                None => None,
            },
        },
        res.step_id@ == ids::hyphenated(req@.step_id.0),
{
    let trajectory_id = req.trajectory_id.to_text();
    let step_id = req.step_id.to_text();
    let mut request_id = trajectory_id.clone();
    request_id.append(":");
    request_id.append(step_id.as_str());
    let chunk: u32 = if req.chunk_tokens < 1 {
        1
    } else {
        req.chunk_tokens
    };
    let most: u32 = if req.max_tokens < 1 {
        1
    } else {
        req.max_tokens
    };
    EngineRequest {
        request_id,
        prompt: prompt_of(req),
        max_tokens: if chunk < most {
            chunk
        } else {
            most
        },
        temperature: match req.constraints.temperature {
            Some(t) => t,
            None => F32Bits(0),
        },
        top_p: match req.constraints.top_p {
            Some(t) => t,
            None => F32Bits(0x3f80_0000),
        },
        trajectory_id,
        session_id: clone_opt(&req.session_id),
        prefix_id: match &req.prefix_hint {
            Some(h) => Some(h.clone()),
            None => match req.prefix {
                Some(p) => Some(p.to_text()),
                None => None,
            },
        },
        step_id,
    }
}

/// The texts between newlines: what each newline ends, without what stands
/// behind the last.
pub open spec fn ended_lines(s: Seq<char>) -> Seq<Seq<char>>
    decreases s.len(),
{
    if s.len() == 0 {
        Seq::empty()
    } else if s.last() == '\n' {
        ended_lines(s.drop_last()).push(open_line(s.drop_last()))
    } else {
        ended_lines(s.drop_last())
    }
}

/// What stands behind the last newline.
pub open spec fn open_line(s: Seq<char>) -> Seq<char>
    decreases s.len(),
{
    if s.len() == 0 || s.last() == '\n' {
        Seq::empty()
    } else {
        open_line(s.drop_last()).push(s.last())
    }
}

/// The lines that say something, without the white space around them.
pub open spec fn said_lines(ls: Seq<Seq<char>>) -> Seq<Seq<char>>
    decreases ls.len(),
{
    if ls.len() == 0 {
        Seq::empty()
    } else {
        let front = said_lines(ls.drop_last());
        if text::trimmed(ls.last()).len() == 0 {
            front
        } else {
            front.push(text::trimmed(ls.last()))
        }
    }
}

/// Text that comes in pieces, cut into lines.
#[derive(Debug)]
pub struct LineBuffer {
    rest: Vec<char>,
}

impl View for LineBuffer {
    type V = Seq<char>;

    closed spec fn view(&self) -> Seq<char> {
        self.rest@
    }
}

impl LineBuffer {
    pub fn new() -> (res: Self)
        ensures
            res@ == Seq::<char>::empty(),
    {
        let res = LineBuffer { rest: Vec::new() };
        assert(res@ =~= Seq::<char>::empty());
        res
    }

    /// Takes a piece in, and gives the lines that it completes.
    pub fn push(&mut self, piece: &str) -> (res: Vec<String>)
        requires
            open_line(old(self)@) == old(self)@,
            ended_lines(old(self)@).len() == 0,
        ensures
            text::all_chars(res@) == said_lines(ended_lines(old(self)@ + piece@)),
            final(self)@ == open_line(old(self)@ + piece@),
            open_line(final(self)@) == final(self)@,
            ended_lines(final(self)@).len() == 0,
    {
        let cs = chars_of(piece);
        let mut out: Vec<String> = Vec::new();
        let mut i: usize = 0;
        let ghost start = self@;
        assert(start + piece@.take(0) =~= start);
        assert(ended_lines(start) =~= Seq::empty());
        assert(text::all_chars(out@) =~= said_lines(ended_lines(start)));
        while i < cs.len()
            invariant
                i <= cs@.len(),
                cs@ == piece@,
                self@ == open_line(start + piece@.take(i as int)),
                text::all_chars(out@) == said_lines(ended_lines(start + piece@.take(i as int))),
            decreases cs@.len() - i,
        {
            let c = cs[i];
            let ghost so_far = start + piece@.take(i as int);
            let ghost next = start + piece@.take(i + 1);
            assert(next.drop_last() =~= so_far);
            assert(next.last() == c);
            if c == '\n' {
                let n: usize = self.rest.len();
                let raw = text_of(&self.rest, 0, n);
                assert(self.rest@.subrange(0, n as int) =~= self.rest@);
                let line = trim(raw.as_str());
                let ghost ls = ended_lines(next);
                assert(ls.drop_last() =~= ended_lines(so_far));
                assert(ls.last() == self@);
                if chars_of(line.as_str()).len() > 0 {
                    let ghost before = out@;
                    out.push(line);
                    assert(text::all_chars(out@) =~= text::all_chars(before).push(line@));
                }
                self.rest = Vec::new();
                assert(self@ =~= Seq::empty());
            } else {
                self.rest.push(c);
            }
            i += 1;
        }
        assert(piece@.take(i as int) =~= piece@);
        proof {
            lemma_open_line(start + piece@);
        }
        out
    }
}

/// What stands behind the last newline holds none.
proof fn lemma_open_line(s: Seq<char>)
    ensures
        open_line(open_line(s)) == open_line(s),
        ended_lines(open_line(s)).len() == 0,
    decreases s.len(),
{
    if s.len() > 0 && s.last() != '\n' {
        lemma_open_line(s.drop_last());
        let o = open_line(s);
        assert(o.drop_last() =~= open_line(s.drop_last()));
        assert(o.last() == s.last());
    }
}

/// However a text is cut into pieces, the lines that come out are the same:
/// what two pieces give one after the other is what they give as one.
pub proof fn law_pieces_do_not_matter(s: Seq<char>, t: Seq<char>)
    ensures
        ended_lines(s + t) == ended_lines(s) + ended_lines(open_line(s) + t),
        open_line(s + t) == open_line(open_line(s) + t),
    decreases t.len(),
{
    if t.len() == 0 {
        assert(s + t =~= s);
        assert(open_line(s) + t =~= open_line(s));
        lemma_open_line(s);
        assert(ended_lines(open_line(s)) =~= Seq::empty());
        assert(ended_lines(s) + ended_lines(open_line(s)) =~= ended_lines(s));
    } else {
        let u = t.drop_last();
        law_pieces_do_not_matter(s, u);
        assert((s + t).drop_last() =~= s + u);
        assert((open_line(s) + t).drop_last() =~= open_line(s) + u);
        assert((s + t).last() == t.last());
        assert((open_line(s) + t).last() == t.last());
        assert(ended_lines(s + t) =~= ended_lines(s) + ended_lines(open_line(s) + t));
    }
}

/// What the engine counted.
#[derive(Debug, Clone, Copy, PartialEq, Eq, Structural)]
pub struct UsageDelta {
    pub cache_hit_tokens: Option<u32>,
    /// Tokens that the session's prompts have in common.
    pub session_lcp_tokens: Option<u32>,
}

/// One line of the engine's answer.
#[derive(Debug)]
pub struct TokenDelta {
    pub text: Option<String>,
    pub token: Option<u32>,
    pub finish_reason: Option<String>,
    pub error: Option<String>,
    pub usage: Option<UsageDelta>,
}

pub struct TokenDeltaView {
    pub text: Option<Seq<char>>,
    pub token: Option<u32>,
    pub finish_reason: Option<Seq<char>>,
    pub error: Option<Seq<char>>,
    pub usage: Option<UsageDelta>,
}

impl View for TokenDelta {
    type V = TokenDeltaView;

    open spec fn view(&self) -> TokenDeltaView {
        TokenDeltaView {
            text: text::opt_chars(self.text),
            token: self.token,
            finish_reason: text::opt_chars(self.finish_reason),
            error: text::opt_chars(self.error),
            usage: self.usage,
        }
    }
}

/// Why a generation ended, by the engine's word for it.
pub open spec fn engine_reason(word: Seq<char>) -> FinishReason {
    if word == "cancelled"@ {
        FinishReason::Cancelled
    } else {
        http_openai::reason_of(word)
    }
}

/// The tokens that were served from the engine's cache, by its own count or by
/// the session's, whichever is greater.
pub open spec fn hits(u: UsageDelta) -> u32 {
    let a = match u.cache_hit_tokens {
        Some(n) => n,
        None => 0,
    };
    match u.session_lcp_tokens {
        Some(n) => if a < n {
            n
        } else {
            a
        },
        None => a,
    }
}

/// An engine's answer, as far as it has come.
#[verifier::ext_equal]
pub struct AnswerView {
    pub text: Seq<char>,
    pub token_ids: Seq<u32>,
    pub finish_reason: FinishReason,
    pub cache_hit_tokens: u32,
}

impl AnswerView {
    pub open spec fn blank() -> AnswerView {
        AnswerView {
            text: Seq::empty(),
            token_ids: Seq::empty(),
            finish_reason: FinishReason::Stop,
            cache_hit_tokens: 0,
        }
    }

    /// With one more line.
    pub open spec fn with(self, d: TokenDeltaView) -> AnswerView {
        AnswerView {
            text: match d.text {
                Some(t) => self.text + t,
                None => self.text,
            },
            token_ids: match d.token {
                Some(t) => self.token_ids.push(t),
                None => self.token_ids,
            },
            finish_reason: match d.finish_reason {
                Some(w) => engine_reason(w),
                None => self.finish_reason,
            },
            cache_hit_tokens: match d.usage {
                Some(u) => if hits(u) > 0 {
                    hits(u)
                } else {
                    self.cache_hit_tokens
                },
                None => self.cache_hit_tokens,
            },
        }
    }

    /// The result of the chunk: where the engine told no tokens, the bytes of
    /// the text stand for them.
    pub open spec fn result(self) -> ChunkResultView {
        let told = self.token_ids.len() > 0;
        let tokens = if told {
            self.token_ids
        } else {
            http_openai::byte_tokens(self.text)
        };
        ChunkResultView {
            text: self.text,
            token_ids: tokens,
            tokens_produced: tokens.len() as u32,
            finished: true,
            finish_reason: Some(self.finish_reason),
            tool_call: None,
            new_prefix: None,
            cache_hit_tokens: self.cache_hit_tokens,
        }
    }
}

/// An engine's answer, as far as it has come.
#[derive(Debug)]
pub struct EngineAnswer {
    pub text: String,
    pub token_ids: Vec<u32>,
    pub finish_reason: FinishReason,
    pub cache_hit_tokens: u32,
}

impl View for EngineAnswer {
    type V = AnswerView;

    open spec fn view(&self) -> AnswerView {
        AnswerView {
            text: self.text@,
            token_ids: self.token_ids@,
            finish_reason: self.finish_reason,
            cache_hit_tokens: self.cache_hit_tokens,
        }
    }
}

impl EngineAnswer {
    pub fn new() -> (res: Self)
        ensures
            res@ == AnswerView::blank(),
    {
        let res = EngineAnswer {
            text: String::new(),
            token_ids: Vec::new(),
            finish_reason: FinishReason::Stop,
            cache_hit_tokens: 0,
        };
        assert(res@ =~= AnswerView::blank());
        res
    }

    /// Takes one line in. A line that tells of an error ends the answer with
    /// it.
    pub fn take(&mut self, delta: TokenDelta) -> (res: Result<(), TrajectError>)
        ensures
            match delta@.error {
                Some(m) => (res matches Err(e) && e@ == TrajectErrorView::Inference(m)) && final(self)@ == old(self)@,
                None => res is Ok && final(self)@ == old(self)@.with(delta@),
            },
    {
        if let Some(m) = delta.error {
            return Err(TrajectError::Inference(m));
        }
        if let Some(t) = &delta.text {
            self.text.append(t.as_str());
        }
        if let Some(id) = delta.token {
            self.token_ids.push(id);
        }
        if let Some(u) = delta.usage {
            let a: u32 = match u.cache_hit_tokens {
                Some(n) => n,
                None => 0,
            };
            let hit: u32 = match u.session_lcp_tokens {
                Some(n) => if a < n {
                    n
                } else {
                    a
                },
                None => a,
            };
            if hit > 0 {
                self.cache_hit_tokens = hit;
            }
        }
        if let Some(w) = &delta.finish_reason {
            self.finish_reason = if same(w.as_str(), "cancelled") {
                FinishReason::Cancelled
            } else {
                http_openai::finish_reason(w.as_str())
            };
        }
        assert(self@ =~= old(self)@.with(delta@));
        Ok(())
    }

    /// The result of the chunk.
    pub fn finish(self) -> (res: ChunkResult)
        ensures
            res@ == self@.result(),
    {
        let token_ids = if self.token_ids.len() > 0 {
            self.token_ids
        } else {
            text_tokens(self.text.as_str())
        };
        let n: u32 = #[verifier::truncate]
        (token_ids.len() as u32);
        ChunkResult {
            text: self.text,
            token_ids,
            tokens_produced: n,
            finished: true,
            finish_reason: Some(self.finish_reason),
            tool_call: None,
            new_prefix: None,
            cache_hit_tokens: self.cache_hit_tokens,
        }
    }
}

/// Each line adds to the answer: its text behind the text, its token behind the
/// tokens. A line without them leaves what there is.
pub proof fn law_lines_add_up(a: AnswerView, d: TokenDeltaView)
    ensures
        d.text matches Some(t) ==> a.with(d).text == a.text + t,
        d.text is None ==> a.with(d).text == a.text,
        d.token matches Some(t) ==> a.with(d).token_ids == a.token_ids.push(t),
        d.token is None ==> a.with(d).token_ids == a.token_ids,
        d.finish_reason is None ==> a.with(d).finish_reason == a.finish_reason,
        d.finish_reason == Some("cancelled"@) ==> a.with(d).finish_reason is Cancelled,
        d.finish_reason == Some("length"@) ==> a.with(d).finish_reason is Length,
        d.finish_reason == Some("stop"@) ==> a.with(d).finish_reason is Stop,
        d.finish_reason == Some("tool_calls"@) ==> a.with(d).finish_reason is ToolCall,
        AnswerView::blank().text.len() == 0,
        AnswerView::blank().token_ids.len() == 0,
        AnswerView::blank().finish_reason is Stop,
        AnswerView::blank().cache_hit_tokens == 0,
{
    reveal_strlit("cancelled");
    reveal_strlit("length");
    reveal_strlit("stop");
    reveal_strlit("tool_calls");
    reveal_strlit("function_call");
    assert("cancelled"@.len() == 9 && "length"@.len() == 6 && "stop"@.len() == 4);
    assert("tool_calls"@.len() == 10 && "function_call"@.len() == 13);
}

/// What was served from the cache is the greater of the engine's count and the
/// session's, and a line that counts none leaves what was counted.
pub proof fn law_cache_hits(a: AnswerView, d: TokenDeltaView, n: u32, m: u32)
    ensures
        hits(UsageDelta { cache_hit_tokens: Some(n), session_lcp_tokens: None }) == n,
        hits(UsageDelta { cache_hit_tokens: None, session_lcp_tokens: Some(m) }) == m,
        hits(UsageDelta { cache_hit_tokens: Some(n), session_lcp_tokens: Some(m) }) >= n,
        hits(UsageDelta { cache_hit_tokens: Some(n), session_lcp_tokens: Some(m) }) >= m,
        hits(UsageDelta { cache_hit_tokens: Some(n), session_lcp_tokens: Some(m) }) == n || hits(
            UsageDelta { cache_hit_tokens: Some(n), session_lcp_tokens: Some(m) },
        ) == m,
        d.usage is None ==> a.with(d).cache_hit_tokens == a.cache_hit_tokens,
        d.usage matches Some(u) ==> (hits(u) > 0 ==> a.with(d).cache_hit_tokens == hits(u)) && (
        hits(u) == 0 ==> a.with(d).cache_hit_tokens == a.cache_hit_tokens),
{
}

/// The result of a chunk is the answer as it came: its text, its tokens where
/// the engine told any and else the text's bytes, why it ended and what the
/// cache served.
pub proof fn law_answer_is_the_result(a: AnswerView)
    ensures
        a.result().text == a.text,
        a.token_ids.len() > 0 ==> a.result().token_ids == a.token_ids,
        a.token_ids.len() == 0 ==> a.result().token_ids.len() == vstd::utf8::encode_utf8(
            a.text,
        ).len() && forall|i: int|
            0 <= i < vstd::utf8::encode_utf8(a.text).len() ==> #[trigger] a.result().token_ids[i]
                == vstd::utf8::encode_utf8(a.text)[i] as u32,
        a.result().token_ids.len() <= u32::MAX ==> a.result().tokens_produced
            == a.result().token_ids.len(),
        a.result().finished,
        a.result().finish_reason == Some(a.finish_reason),
        a.result().cache_hit_tokens == a.cache_hit_tokens,
        a.result().tool_call is None,
{
}

/// A text of lines comes out line by line: each line, however it is followed,
/// once its newline is there, without its white space, and not at all where it
/// is only that.
pub proof fn law_lines_come_out(line: Seq<char>, rest: Seq<char>)
    requires
        !line.contains('\n'),
    ensures
        ended_lines(line).len() == 0,
        open_line(line) == line,
        ended_lines(line + seq!['\n'] + rest) == seq![line] + ended_lines(rest),
        text::trimmed(line).len() > 0 ==> said_lines(seq![line]) == seq![text::trimmed(line)],
        text::trimmed(line).len() == 0 ==> said_lines(seq![line]).len() == 0,
    decreases line.len(),
{
    lemma_no_newline(line);
    let s = line + seq!['\n'];
    assert(s.drop_last() =~= line);
    assert(s.last() == '\n');
    assert(ended_lines(line) =~= Seq::empty());
    assert(ended_lines(s) =~= seq![line]);
    law_pieces_do_not_matter(s, rest);
    assert(open_line(s) + rest =~= rest);
    assert(seq![line].drop_last() =~= Seq::empty());
    assert(seq![line].last() == line);
    reveal_with_fuel(said_lines, 2);
    assert(said_lines(Seq::empty()) =~= Seq::empty());
    if text::trimmed(line).len() > 0 {
        assert(said_lines(seq![line]) =~= seq![text::trimmed(line)]);
    }
}

proof fn lemma_no_newline(line: Seq<char>)
    requires
        !line.contains('\n'),
    ensures
        ended_lines(line).len() == 0,
        open_line(line) == line,
    decreases line.len(),
{
    if line.len() > 0 {
        let front = line.drop_last();
        assert(line.contains(line.last()));
        assert(!front.contains('\n')) by {
            if front.contains('\n') {
                let i = choose|i: int| 0 <= i < front.len() && front[i] == '\n';
                assert(line[i] == '\n');
            }
        }
        lemma_no_newline(front);
        assert(open_line(line) =~= line);
    }
}

} // verus!
