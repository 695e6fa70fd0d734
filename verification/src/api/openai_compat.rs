//! Chat requests in the form that many clients speak: each becomes a
//! short-lived trajectory.
use vstd::prelude::*;

use crate::ids;
use crate::ids::TrajectoryId;
use crate::step::{StepOutcome, StepOutcomeView};
use crate::text;
use crate::text::join;
use crate::trajectory::{TrajectoryConfig, TrajectoryConfigView};

verus! {

#[derive(Debug)]
pub struct ChatMessage {
    pub role: String,
    pub content: String,
}

#[derive(Debug)]
pub struct ChatCompletionRequest {
    pub model: String,
    pub messages: Vec<ChatMessage>,
    pub max_tokens: Option<u32>,
}

#[derive(Debug)]
pub struct ChatChoice {
    pub index: u32,
    pub message: ChatMessage,
    pub finish_reason: String,
}

#[derive(Debug)]
pub struct ChatCompletionResponse {
    pub id: String,
    pub choices: Vec<ChatChoice>,
}

/// A message as a line of the prompt.
pub open spec fn line(m: ChatMessage) -> Seq<char> {
    m.role@ + ": "@ + m.content@
}

/// The prompt that messages make: a line for each.
pub open spec fn prompt(ms: Seq<ChatMessage>) -> Seq<char> {
    text::joined(ms.map_values(|m: ChatMessage| line(m)), "\n"@)
}

/// Whether a response is the assistant's one answer.
pub open spec fn answers(r: ChatCompletionResponse, id: TrajectoryId, content: Seq<char>) -> bool {
    &&& r.id@ == ids::hyphenated(id.0)
    &&& r.choices@.len() == 1
    &&& r.choices@[0].index == 0
    &&& r.choices@[0].message.role@ == "assistant"@
    &&& r.choices@[0].message.content@ == content
    &&& r.choices@[0].finish_reason@ == "stop"@
}

/// The text of a generation; other outcomes say nothing.
pub open spec fn said(o: StepOutcomeView) -> Option<Seq<char>> {
    match o {
        StepOutcomeView::Generated { text, .. } => Some(text),
        _ => None,
    }
}

/// The text that an outcome gives as an answer.
pub fn answer_of(outcome: Option<&StepOutcome>) -> (res: Option<String>)
    ensures
        text::opt_chars(res) == match outcome {
            Some(o) => said(o@),
            None => None,
        },
{
    match outcome {
        Some(StepOutcome::Generated { text, .. }) => Some(text.clone()),
        _ => None,
    }
}

/// Compatibility layer: each chat call becomes a short-lived trajectory.
pub struct OpenAiCompat;

impl OpenAiCompat {
    /// The prompt of a request.
    pub fn prompt(req: &ChatCompletionRequest) -> (res: String)
        ensures
            res@ == prompt(req.messages@),
    {
        let mut lines: Vec<String> = Vec::new();
        let mut i: usize = 0;
        let ghost all = req.messages@.map_values(|m: ChatMessage| line(m));
        while i < req.messages.len()
            invariant
                i <= req.messages@.len(),
                all == req.messages@.map_values(|m: ChatMessage| line(m)),
                text::all_chars(lines@) =~= all.take(i as int),
            decreases req.messages@.len() - i,
        {
            let m = &req.messages[i];
            let ghost before = lines@;
            let mut one = m.role.clone();
            one.append(": ");
            one.append(m.content.as_str());
            assert(all[i as int] == one@);
            lines.push(one);
            assert(text::all_chars(lines@) =~= text::all_chars(before).push(one@));
            i += 1;
        }
        assert(text::all_chars(lines@) =~= all);
        join(&lines, "\n")
    }

    /// The response with an answer; one that says so where there is none.
    pub fn response(id: TrajectoryId, answer: Option<String>) -> (res: ChatCompletionResponse)
        ensures
            answers(
                res,
                id,
                match answer {
                    Some(a) => a@,
                    None => "(empty)"@,
                },
            ),
    {
        let content = match answer {
            Some(a) => a,
            None => "(empty)".to_string(),
        };
        let mut choices: Vec<ChatChoice> = Vec::new();
        choices.push(
            ChatChoice {
                index: 0,
                message: ChatMessage { role: "assistant".to_string(), content },
                finish_reason: "stop".to_string(),
            },
        );
        ChatCompletionResponse { id: id.to_text(), choices }
    }

    /// The response without a model behind it.
    pub fn stub_response(id: TrajectoryId) -> (res: ChatCompletionResponse)
        ensures
            answers(res, id, "(stub) trajectory finished"@),
    {
        Self::response(id, Some("(stub) trajectory finished".to_string()))
    }

    pub fn default_trajectory_config() -> (res: TrajectoryConfig)
        ensures
            res@ == TrajectoryConfigView::standard(),
    {
        TrajectoryConfig::default()
    }
}

/// The prompt of one message is its role and its words, and that of more goes on
/// line by line, in their order.
pub proof fn law_prompt_lines(ms: Seq<ChatMessage>, more: Seq<ChatMessage>, m: ChatMessage)
    requires
        ms.len() > 0,
        more.len() > 0,
    ensures
        prompt(Seq::empty()) == Seq::<char>::empty(),
        prompt(seq![m]) == m.role@ + ": "@ + m.content@,
        prompt(ms + more) == prompt(ms) + "\n"@ + prompt(more),
        text::ends(prompt(ms.push(m)), m.content@),
{
    let f = |m: ChatMessage| line(m);
    assert(Seq::<ChatMessage>::empty().map_values(f) =~= Seq::empty());
    assert(seq![m].map_values(f) =~= seq![line(m)]);
    assert((ms + more).map_values(f) =~= ms.map_values(f) + more.map_values(f));
    text::law_joined(ms.map_values(f), more.map_values(f), line(m), "\n"@);
    assert(ms.push(m).map_values(f) =~= ms.map_values(f) + seq![line(m)]);
    text::law_joined(ms.map_values(f), seq![line(m)], line(m), "\n"@);
    let all = prompt(ms.push(m));
    assert(all.skip(all.len() - m.content@.len()) =~= m.content@);
}

/// What the model generated is what is answered; no other outcome says
/// anything.
pub proof fn law_generated_is_answered(o: StepOutcomeView)
    ensures
        o is Generated ==> said(o) == Some(o->text),
        !(o is Generated) ==> said(o) is None,
{
}

/// A response carries the one answer that it was made for, from the assistant,
/// under the trajectory's name.
pub proof fn law_response_carries_answer(
    r: ChatCompletionResponse,
    id: TrajectoryId,
    content: Seq<char>,
)
    requires
        answers(r, id, content),
    ensures
        r.choices@.len() == 1,
        r.choices@[0].message.content@ == content,
        r.choices@[0].message.role@ == "assistant"@,
        r.choices@[0].finish_reason@ == "stop"@,
        r.id@ == ids::hyphenated(id.0),
{
}

} // verus!
