//! Tool calls for engines that know nothing of them: tools are written into
//! the prompt, and calls are read back out of the answer's text.
use serde_json::Value;
use vstd::prelude::*;

use crate::api::bridge_laws;
use crate::json;
use crate::json::{
    copy, items_in, list_value, member, null_value, object2, pointer, put, read, set_pointer, show,
    show_pretty, spell, text_in, text_value, JsonTree,
};
use crate::text;
use crate::text::{chars_of, decimal, same, text_of, trim, trim_end_char};

verus! {

/// What the model is told about tools.
pub const TOOL_PROTOCOL: &'static str = "You are a coding agent with tools. When you need a tool, reply with ONLY this JSON (no markdown fences):\n{\"tool_calls\":[{\"id\":\"call_1\",\"type\":\"function\",\"function\":{\"name\":\"TOOL_NAME\",\"arguments\":\"{\\\"arg\\\":\\\"value\\\"}\"}}]}\nWhen you are done and do not need tools, reply with plain text only (no tool_calls JSON).\n";

/// The text of a member, if it is there and is a text.
pub open spec fn member_text(t: JsonTree, key: Seq<char>) -> Option<Seq<char>> {
    match t.member(key) {
        Some(m) => m.as_text(),
        None => None,
    }
}

pub open spec fn or_else(o: Option<Seq<char>>, other: Seq<char>) -> Seq<char> {
    match o {
        Some(s) => s,
        None => other,
    }
}

/// A value as text: a text is itself, anything else shows as JSON.
pub open spec fn as_plain(t: JsonTree) -> Seq<char> {
    match t {
        JsonTree::Text(s) => s,
        other => json::json_text(other),
    }
}

fn plain(v: &Value) -> (res: String)
    ensures
        res@ == as_plain(json::tree(*v)),
{
    match text_in(v) {
        Some(s) => s.to_string(),
        None => show(v),
    }
}

fn text_member(v: &Value, key: &str) -> (res: Option<String>)
    ensures
        match res {
            Some(s) => member_text(json::tree(*v), key@) == Some(s@),
            None => member_text(json::tree(*v), key@) is None,
        },
{
    match member(v, key) {
        Some(m) => match text_in(m) {
            Some(s) => Some(s.to_string()),
            None => None,
        },
        None => None,
    }
}

/// A chat message.
pub open spec fn message(role: Seq<char>, content: Seq<char>) -> JsonTree {
    json::pair("role"@, JsonTree::Text(role), "content"@, JsonTree::Text(content))
}

fn message_value(role: &str, content: String) -> (res: Value)
    ensures
        json::tree(res) == message(role@, content@),
{
    object2("role", text_value(role.to_string()), "content", text_value(content))
}

/// The system message that tells of the tools.
pub open spec fn tools_message(tools: Seq<JsonTree>) -> JsonTree {
    message(
        "system"@,
        TOOL_PROTOCOL@ + "\nAvailable tools (OpenAI schema):\n"@ + json::pretty_text(tools)
            + "\n"@,
    )
}

/// Puts a system message that tells of the tools in front.
pub fn inject_tools(messages: &mut Vec<Value>, tools: &Vec<Value>)
    ensures
        json::trees(final(messages)@) == seq![tools_message(json::trees(tools@))] + json::trees(
            old(messages)@,
        ),
{
    let listed = match show_pretty(tools) {
        Some(s) => s,
        None => "[]".to_string(),
    };
    let mut system = TOOL_PROTOCOL.to_string();
    system.append("\nAvailable tools (OpenAI schema):\n");
    system.append(listed.as_str());
    system.append("\n");
    messages.insert(0, message_value("system", system));
    assert(json::trees(messages@) =~= seq![tools_message(json::trees(tools@))] + json::trees(
        old(messages)@,
    ));
}

/// A message in the form that an engine without tools understands: results of
/// tools come from the user, calls of tools are part of the assistant's text,
/// and the assistant's content is a text.
pub open spec fn normalized(t: JsonTree) -> JsonTree {
    let role = or_else(member_text(t, "role"@), ""@);
    if role == "tool"@ {
        message(
            "user"@,
            "Tool `"@ + or_else(member_text(t, "name"@), "tool"@) + "` result:\n"@ + (
            match t.member("content"@) {
                Some(c) => as_plain(c),
                None => ""@,
            }),
        )
    } else if role == "assistant"@ {
        match (t.member("tool_calls"@), t) {
            (Some(calls), _) => {
                let said = or_else(member_text(t, "content"@), ""@);
                let shown = json::json_text(json::single("tool_calls"@, calls));
                message(
                    "assistant"@,
                    if said.len() == 0 {
                        shown
                    } else {
                        said + "\n"@ + shown
                    },
                )
            },
            (None, JsonTree::Object(m)) => match t.member("content"@) {
                None => JsonTree::Object(m.insert("content"@, JsonTree::Text(""@))),
                Some(JsonTree::Text(_)) => t,
                Some(c) => JsonTree::Object(
                    m.insert("content"@, JsonTree::Text(json::json_text(c))),
                ),
            },
            _ => t,
        }
    } else {
        t
    }
}

fn normalize_message(m: Value) -> (res: Value)
    ensures
        json::tree(res) == normalized(json::tree(m)),
{
    let ghost t = json::tree(m);
    proof {
        reveal_strlit("");
    }
    let role = match text_member(&m, "role") {
        Some(r) => r,
        None => "".to_string(),
    };
    if same(role.as_str(), "tool") {
        let name = match text_member(&m, "name") {
            Some(n) => n,
            None => "tool".to_string(),
        };
        let content = match member(&m, "content") {
            Some(c) => plain(c),
            None => "".to_string(),
        };
        let mut says = "Tool `".to_string();
        says.append(name.as_str());
        says.append("` result:\n");
        says.append(content.as_str());
        return message_value("user", says);
    }
    if same(role.as_str(), "assistant") {
        if let Some(calls) = member(&m, "tool_calls") {
            let said = match text_member(&m, "content") {
                Some(s) => s,
                None => "".to_string(),
            };
            let shown = show(&json::object1("tool_calls", copy(calls)));
            let payload = if chars_of(said.as_str()).len() == 0 {
                shown
            } else {
                let mut p = said;
                p.append("\n");
                p.append(shown.as_str());
                p
            };
            return message_value("assistant", payload);
        }
        // The role was read from it, so it is an object.
        proof {
            reveal_strlit("assistant");
        }
        assert(t is Object);
        let content: Option<String> = match member(&m, "content") {
            None => Some("".to_string()),
            Some(c) => match text_in(c) {
                Some(_) => None,
                None => Some(show(c)),
            },
        };
        let mut out = m;
        if let Some(c) = content {
            put(&mut out, "content", text_value(c));
        }
        return out;
    }
    m
}

/// Messages in the form that an engine without tools understands.
pub fn normalize_messages(messages: Vec<Value>) -> (res: Vec<Value>)
    ensures
        json::trees(res@) == json::trees(messages@).map_values(|t: JsonTree| normalized(t)),
{
    let mut out: Vec<Value> = Vec::new();
    let mut i: usize = 0;
    let ghost all = json::trees(messages@);
    while i < messages.len()
        invariant
            i <= messages@.len(),
            all == json::trees(messages@),
            out@.len() == i,
            forall|j: int| 0 <= j < i ==> json::tree(#[trigger] out@[j]) == normalized(all[j]),
        decreases messages@.len() - i,
    {
        let one = normalize_message(copy(&messages[i]));
        out.push(one);
        i += 1;
    }
    assert(json::trees(out@) =~= all.map_values(|t: JsonTree| normalized(t)));
    out
}

/// The first place of a character.
pub open spec fn first_of(s: Seq<char>, c: char) -> Option<int>
    decreases s.len(),
{
    if s.len() == 0 {
        None
    } else if s[0] == c {
        Some(0)
    } else {
        match first_of(s.drop_first(), c) {
            Some(i) => Some(i + 1),
            None => None,
        }
    }
}

/// The last place of a character.
pub open spec fn last_of(s: Seq<char>, c: char) -> Option<int>
    decreases s.len(),
{
    if s.len() == 0 {
        None
    } else if s.last() == c {
        Some(s.len() - 1)
    } else {
        last_of(s.drop_last(), c)
    }
}

proof fn lemma_first_of(s: Seq<char>, c: char)
    ensures
        match first_of(s, c) {
            Some(i) => 0 <= i < s.len() && s[i] == c && forall|j: int| 0 <= j < i ==> s[j] != c,
            None => forall|j: int| 0 <= j < s.len() ==> s[j] != c,
        },
    decreases s.len(),
{
    if s.len() > 0 && s[0] != c {
        let rest = s.drop_first();
        lemma_first_of(rest, c);
        assert(forall|j: int| 0 < j < s.len() ==> s[j] == rest[j - 1]);
    }
}

proof fn lemma_last_of(s: Seq<char>, c: char)
    ensures
        match last_of(s, c) {
            Some(i) => 0 <= i < s.len() && s[i] == c && forall|j: int|
                i < j < s.len() ==> s[j] != c,
            None => forall|j: int| 0 <= j < s.len() ==> s[j] != c,
        },
    decreases s.len(),
{
    if s.len() > 0 && s.last() != c {
        let front = s.drop_last();
        lemma_last_of(front, c);
        assert(forall|j: int| 0 <= j < front.len() ==> s[j] == front[j]);
    }
}

fn find_first(cs: &Vec<char>, c: char) -> (res: Option<usize>)
    ensures
        match res {
            Some(i) => first_of(cs@, c) == Some(i as int),
            None => first_of(cs@, c) is None,
        },
{
    proof {
        lemma_first_of(cs@, c);
    }
    let mut i: usize = 0;
    while i < cs.len()
        invariant
            i <= cs@.len(),
            forall|j: int| 0 <= j < i ==> cs@[j] != c,
            match first_of(cs@, c) {
                Some(i) => 0 <= i < cs@.len() && cs@[i] == c && forall|j: int|
                    0 <= j < i ==> cs@[j] != c,
                None => forall|j: int| 0 <= j < cs@.len() ==> cs@[j] != c,
            },
        decreases cs@.len() - i,
    {
        if cs[i] == c {
            return Some(i);
        }
        i += 1;
    }
    None
}

fn find_last(cs: &Vec<char>, c: char) -> (res: Option<usize>)
    ensures
        match res {
            Some(i) => last_of(cs@, c) == Some(i as int),
            None => last_of(cs@, c) is None,
        },
{
    proof {
        lemma_last_of(cs@, c);
    }
    let mut i: usize = cs.len();
    while i > 0
        invariant
            i <= cs@.len(),
            forall|j: int| i <= j < cs@.len() ==> cs@[j] != c,
            match last_of(cs@, c) {
                Some(i) => 0 <= i < cs@.len() && cs@[i] == c && forall|j: int|
                    i < j < cs@.len() ==> cs@[j] != c,
                None => forall|j: int| 0 <= j < cs@.len() ==> cs@[j] != c,
            },
        decreases i,
    {
        i -= 1;
        if cs[i] == c {
            return Some(i);
        }
    }
    None
}

/// What a text says as JSON: all of it, or else what stands between its first
/// opening and its last closing brace.
pub open spec fn extracted(s: Seq<char>) -> Option<JsonTree> {
    let t = text::trimmed(s);
    match json::json_read(t) {
        Some(v) => Some(v),
        None => match (first_of(t, '{'), last_of(t, '}')) {
            (Some(a), Some(b)) => if b > a {
                json::json_read(t.subrange(a, b + 1))
            } else {
                None
            },
            _ => None,
        },
    }
}

/// The JSON value in a text.
pub fn extract_json_object(s: &str) -> (res: Option<Value>)
    ensures
        match res {
            Some(v) => extracted(s@) == Some(json::tree(v)),
            None => extracted(s@) is None,
        },
{
    let trimmed = trim(s);
    if let Ok(v) = read(trimmed.as_str()) {
        return Some(v);
    }
    let cs = chars_of(trimmed.as_str());
    proof {
        lemma_first_of(cs@, '{');
        lemma_last_of(cs@, '}');
    }
    if let Some(start) = find_first(&cs, '{') {
        if let Some(end) = find_last(&cs, '}') {
            if end > start {
                let part = text_of(&cs, start, end + 1);
                if let Ok(v) = read(part.as_str()) {
                    return Some(v);
                }
            }
        }
    }
    None
}

/// The two steps to a part of a function.
pub open spec fn function_path(key: Seq<char>) -> Seq<Seq<char>> {
    seq!["function"@, key]
}

/// A part of a call: of its function, or else of the call itself.
pub open spec fn call_part(c: JsonTree, key: Seq<char>) -> Option<JsonTree> {
    match c.at(function_path(key)) {
        Some(v) => Some(v),
        None => c.member(key),
    }
}

/// The name that a call asks for; none is empty.
pub open spec fn call_name(c: JsonTree) -> Seq<char> {
    match call_part(c, "name"@) {
        Some(v) => or_else(v.as_text(), ""@),
        None => ""@,
    }
}

/// The tool call that stands at place `i` of a list, in full form: calls
/// without an id get one, arguments are a text.
pub open spec fn full_call(c: JsonTree, i: nat) -> JsonTree {
    let id = or_else(member_text(c, "id"@), "call_"@ + text::dec(i));
    let arguments = match call_part(c, "arguments"@) {
        Some(v) => as_plain(v),
        None => "{}"@,
    };
    JsonTree::Object(
        Map::<Seq<char>, JsonTree>::empty().insert("id"@, JsonTree::Text(id)).insert(
            "type"@,
            JsonTree::Text("function"@),
        ).insert(
            "function"@,
            json::pair(
                "name"@,
                JsonTree::Text(call_name(c)),
                "arguments"@,
                JsonTree::Text(arguments),
            ),
        ),
    )
}

/// The calls in a list that name a tool, in full form.
pub open spec fn full_calls(cs: Seq<JsonTree>) -> Seq<JsonTree>
    decreases cs.len(),
{
    if cs.len() == 0 {
        Seq::empty()
    } else {
        let front = full_calls(cs.drop_last());
        if call_name(cs.last()).len() == 0 {
            front
        } else {
            front.push(full_call(cs.last(), (cs.len() - 1) as nat))
        }
    }
}

/// The tool calls that a value tells, if it tells any.
pub open spec fn told_calls(v: JsonTree) -> Option<Seq<JsonTree>> {
    match v.member("tool_calls"@) {
        Some(JsonTree::List(cs)) => if full_calls(cs).len() == 0 {
            None
        } else {
            Some(full_calls(cs))
        },
        _ => None,
    }
}

/// The tool calls in a text, if it holds any.
pub open spec fn tool_calls(s: Seq<char>) -> Option<Seq<JsonTree>> {
    match extracted(s) {
        Some(v) => told_calls(v),
        None => None,
    }
}

fn steps2(a: &str, b: &str) -> (res: Vec<String>)
    ensures
        text::all_chars(res@) == seq![a@, b@],
        res@.len() == 2,
        res@[0]@ == a@,
        res@[1]@ == b@,
{
    let mut res: Vec<String> = Vec::new();
    res.push(a.to_string());
    res.push(b.to_string());
    assert(text::all_chars(res@) =~= seq![a@, b@]);
    res
}

fn part_of_call<'a>(c: &'a Value, key: &str) -> (res: Option<&'a Value>)
    requires
        json::plain_token(key@),
    ensures
        match res {
            Some(v) => call_part(json::tree(*c), key@) == Some(json::tree(*v)),
            None => call_part(json::tree(*c), key@) is None,
        },
{
    let path = steps2("function", key);
    proof {
        reveal_strlit("function");
    }
    match pointer(c, spell(&path).as_str()) {
        Some(v) => Some(v),
        None => member(c, key),
    }
}

/// The tool calls in a text, if it holds any: a list under `tool_calls`, of
/// which those that name a tool count.
pub fn parse_tool_calls(s: &str) -> (res: Option<Vec<Value>>)
    ensures
        match res {
            Some(vs) => tool_calls(s@) == Some(json::trees(vs@)) && vs@.len() > 0,
            None => tool_calls(s@) is None,
        },
{
    match extract_json_object(s) {
        Some(v) => calls_in(&v),
        None => None,
    }
}

/// The tool calls that a value tells, if it tells any: a list under
/// `tool_calls`, of which those that name a tool count.
pub fn calls_in(v: &Value) -> (res: Option<Vec<Value>>)
    ensures
        match res {
            Some(vs) => told_calls(json::tree(*v)) == Some(json::trees(vs@)) && vs@.len() > 0,
            None => told_calls(json::tree(*v)) is None,
        },
        json::tree(*v).member("tool_calls"@) matches Some(JsonTree::List(cs)) ==> forall|
            i: int,
            s: Seq<char>,
        |
            0 <= i < cs.len() && call_name(cs[i]).len() > 0 && #[trigger] bridge_laws::argued(
                cs[i],
                s,
            ) ==> (res matches Some(vs) && exists|j: int|
                0 <= j < vs@.len() && #[trigger] bridge_laws::argued(json::tree(vs@[j]), s)),
{
    let list = match member(v, "tool_calls") {
        Some(l) => l,
        None => {
            return None;
        },
    };
    let calls = match items_in(list) {
        Some(cs) => cs,
        None => {
            return None;
        },
    };
    let ghost all = json::trees(calls@);
    let mut out: Vec<Value> = Vec::new();
    let mut i: usize = 0;
    assert(all.take(0) =~= Seq::empty());
    assert(json::trees(out@) =~= full_calls(all.take(0)));
    proof {
        reveal_strlit("");
        reveal_strlit("name");
        reveal_strlit("arguments");
    }
    while i < calls.len()
        invariant
            i <= calls@.len(),
            all == json::trees(calls@),
            json::trees(out@) == full_calls(all.take(i as int)),
            json::plain_token("name"@),
            json::plain_token("arguments"@),
            ""@.len() == 0,
        decreases calls@.len() - i,
    {
        let c = &calls[i];
        let ghost upto = all.take(i + 1);
        assert(upto.drop_last() =~= all.take(i as int));
        assert(upto.last() == json::tree(*c));
        let name = match part_of_call(c, "name") {
            Some(v) => match text_in(v) {
                Some(s) => s.to_string(),
                None => "".to_string(),
            },
            None => "".to_string(),
        };
        if chars_of(name.as_str()).len() > 0 {
            let id = match text_member(c, "id") {
                Some(s) => s,
                None => {
                    let mut s = "call_".to_string();
                    s.append(decimal(i as u64).as_str());
                    s
                },
            };
            let arguments = match part_of_call(c, "arguments") {
                Some(v) => plain(v),
                None => "{}".to_string(),
            };
            let function = object2("name", text_value(name), "arguments", text_value(arguments));
            let mut call = object2("id", text_value(id), "type", text_value("function".to_string()));
            put(&mut call, "function", function);
            let ghost before = out@;
            out.push(call);
            assert(json::trees(out@) =~= json::trees(before).push(json::tree(call)));
        }
        i += 1;
    }
    assert(all.take(i as int) =~= all);
    proof {
        assert forall|k: int, s: Seq<char>|
            0 <= k < all.len() && call_name(all[k]).len() > 0 && #[trigger] bridge_laws::argued(
                all[k],
                s,
            ) implies exists|j: int|
            0 <= j < out@.len() && #[trigger] bridge_laws::argued(json::tree(out@[j]), s) by {
            bridge_laws::law_arguments_come_through(all, k, s);
            let j = choose|j: int|
                0 <= j < full_calls(all).len() && #[trigger] bridge_laws::argued(
                    full_calls(all)[j],
                    s,
                );
            assert(json::trees(out@)[j] == json::tree(out@[j]));
        }
    }
    if out.len() == 0 {
        None
    } else {
        Some(out)
    }
}

/// The steps to the answer of an upstream reply.
pub open spec fn message_path() -> Seq<Seq<char>> {
    seq!["choices"@, "0"@, "message"@]
}

pub open spec fn content_path() -> Seq<Seq<char>> {
    seq!["choices"@, "0"@, "message"@, "content"@]
}

pub open spec fn finish_path() -> Seq<Seq<char>> {
    seq!["choices"@, "0"@, "finish_reason"@]
}

/// The assistant's message that calls tools.
pub open spec fn calling_message(calls: Seq<JsonTree>) -> JsonTree {
    JsonTree::Object(
        Map::<Seq<char>, JsonTree>::empty().insert("role"@, JsonTree::Text("assistant"@)).insert(
            "content"@,
            JsonTree::Null,
        ).insert("tool_calls"@, JsonTree::List(calls)),
    )
}

/// The calls in the answer of an upstream reply.
pub open spec fn reply_calls(reply: JsonTree) -> Option<Seq<JsonTree>> {
    match reply.at(content_path()) {
        Some(c) => match c.as_text() {
            Some(s) => tool_calls(s),
            None => None,
        },
        None => None,
    }
}

/// The reply to a request with tools: where the answer's text holds calls, it
/// becomes a message that makes them.
pub open spec fn bridged(reply: JsonTree) -> JsonTree {
    match reply_calls(reply) {
        Some(calls) => {
            let told = reply.replaced(message_path(), calling_message(calls));
            match told.at(finish_path()) {
                Some(_) => told.replaced(finish_path(), JsonTree::Text("tool_calls"@)),
                None => told,
            }
        },
        None => reply,
    }
}

fn steps(a: &str, b: &str, c: &str) -> (res: Vec<String>)
    ensures
        text::all_chars(res@) == seq![a@, b@, c@],
        res@.len() == 3,
        res@[0]@ == a@,
        res@[1]@ == b@,
        res@[2]@ == c@,
{
    let mut res: Vec<String> = Vec::new();
    res.push(a.to_string());
    res.push(b.to_string());
    res.push(c.to_string());
    assert(text::all_chars(res@) =~= seq![a@, b@, c@]);
    res
}

/// A longer path leads on from where a shorter one leads to.
proof fn lemma_path_on(t: JsonTree, path: Seq<Seq<char>>, more: Seq<char>)
    ensures
        t.at(path.push(more)) == match t.at(path) {
            Some(m) => m.step(more),
            None => None,
        },
    decreases path.len(),
{
    let p = path.push(more);
    if path.len() == 0 {
        assert(p.drop_first() =~= Seq::empty());
        match t.step(more) {
            Some(m) => {
                assert(m.at(p.drop_first()) == Some(m));
            },
            None => {},
        }
    } else {
        assert(p[0] == path[0]);
        assert(p.drop_first() =~= path.drop_first().push(more));
        match t.step(path[0]) {
            Some(m) => {
                lemma_path_on(m, path.drop_first(), more);
            },
            None => {},
        }
    }
}

/// The reply to a chat request, given what the upstream engine answered.
pub fn bridge_reply(reply: Value, has_tools: bool) -> (res: Value)
    ensures
        json::tree(res) == if has_tools {
            bridged(json::tree(reply))
        } else {
            json::tree(reply)
        },
{
    let mut parsed = reply;
    if !has_tools {
        return parsed;
    }
    proof {
        reveal_strlit("choices");
        reveal_strlit("0");
        reveal_strlit("message");
        reveal_strlit("content");
        reveal_strlit("finish_reason");
    }
    let to_message = steps("choices", "0", "message");
    let mut to_content = steps("choices", "0", "message");
    to_content.push("content".to_string());
    assert(text::all_chars(to_content@) =~= content_path());
    let said: Option<String> = match pointer(&parsed, spell(&to_content).as_str()) {
        Some(c) => match text_in(c) {
            Some(s) => Some(s.to_string()),
            None => None,
        },
        None => None,
    };
    if let Some(s) = said {
        if let Some(calls) = parse_tool_calls(s.as_str()) {
            proof {
                assert(content_path() =~= message_path().push("content"@));
                lemma_path_on(json::tree(parsed), message_path(), "content"@);
            }
            let ghost listed = json::trees(calls@);
            let mut msg = object2(
                "role",
                text_value("assistant".to_string()),
                "content",
                null_value(),
            );
            put(&mut msg, "tool_calls", list_value(calls));
            assert(json::tree(msg) == calling_message(listed));
            let _ = set_pointer(&mut parsed, spell(&to_message).as_str(), msg);
            let to_finish = steps("choices", "0", "finish_reason");
            let _ = set_pointer(
                &mut parsed,
                spell(&to_finish).as_str(),
                text_value("tool_calls".to_string()),
            );
        }
    }
    parsed
}

/// The reply to a chat request, given the body that the upstream engine
/// answered. A body that is not JSON is an error, which holds the body too.
pub fn bridge_body(body: &str, has_tools: bool) -> (res: Result<Value, String>)
    ensures
        match res {
            Ok(v) => json::json_read(body@) matches Some(t) && json::tree(v) == if has_tools {
                bridged(t)
            } else {
                t
            },
            Err(m) => {
                &&& json::json_read(body@) is None
                &&& exists|why: Seq<char>|
                    m@ == #[trigger] ("upstream json: "@ + why) + ": "@ + body@
            },
        },
{
    match read(body) {
        Ok(reply) => Ok(bridge_reply(reply, has_tools)),
        Err(why) => {
            let mut m = "upstream json: ".to_string();
            m.append(why.as_str());
            m.append(": ");
            m.append(body);
            assert(m@ == ("upstream json: "@ + why@) + ": "@ + body@);
            Err(m)
        },
    }
}

/// How many tokens are asked of the upstream engine: as many as the request
/// asks for, or 1024.
pub fn upstream_max_tokens(asked: Option<u32>) -> (res: u32)
    ensures
        res == match asked {
            Some(n) => n,
            None => 1024,
        },
{
    match asked {
        Some(n) => n,
        None => 1024,
    }
}

/// The status code of a gateway that got no good answer.
pub const BAD_GATEWAY: u16 = 502;

/// Whether the upstream engine's status code says that all went well.
pub fn went_well(code: u16) -> (res: bool)
    ensures
        res == (200 <= code < 300),
{
    200 <= code && code < 300
}

/// What is answered where the upstream engine failed: its status code, or that
/// of a bad gateway where it is none that can be sent; and a text with its
/// status and body.
pub fn upstream_failure(code: u16, status: &str, body: &str) -> (res: (u16, String))
    ensures
        res.0 == if 100 <= code < 1000 {
            code
        } else {
            BAD_GATEWAY
        },
        res.1@ == "upstream "@ + status@ + ": "@ + body@,
{
    let mut m = "upstream ".to_string();
    m.append(status);
    m.append(": ");
    m.append(body);
    let answered: u16 = if 100 <= code && code < 1000 {
        code
    } else {
        BAD_GATEWAY
    };
    (answered, m)
}

/// Why a request is turned away, if it is: answers come whole.
pub fn refusal(stream: Option<bool>) -> (res: Option<String>)
    ensures
        res is Some <==> stream == Some(true),
        res matches Some(m) ==> m@ == "streaming not supported by traject tool-bridge"@,
{
    match stream {
        Some(true) => Some("streaming not supported by traject tool-bridge".to_string()),
        _ => None,
    }
}

/// The messages that go upstream.
pub open spec fn upstream(messages: Seq<JsonTree>, tools: Option<Seq<JsonTree>>) -> Seq<JsonTree> {
    let plain = messages.map_values(|t: JsonTree| normalized(t));
    match tools {
        Some(ts) => if ts.len() > 0 {
            seq![tools_message(ts)] + plain
        } else {
            plain
        },
        None => plain,
    }
}

/// The messages that go upstream, and whether the request has tools.
pub fn upstream_messages(messages: Vec<Value>, tools: &Option<Vec<Value>>) -> (res: (
    Vec<Value>,
    bool,
))
    ensures
        json::trees(res.0@) == upstream(
            json::trees(messages@),
            match *tools {
                Some(ts) => Some(json::trees(ts@)),
                None => None,
            },
        ),
        res.1 == match *tools {
            Some(ts) => ts@.len() > 0,
            None => false,
        },
{
    let mut out = normalize_messages(messages);
    match tools {
        Some(ts) => if ts.len() > 0 {
            inject_tools(&mut out, ts);
            (out, true)
        } else {
            (out, false)
        },
        None => (out, false),
    }
}

/// Where chat requests go upstream.
pub fn upstream_url(base: &str) -> (res: String)
    ensures
        res@ == text::trimmed_end(base@, '/') + "/v1/chat/completions"@,
{
    let mut s = trim_end_char(base, '/');
    s.append("/v1/chat/completions");
    s
}

/// A reply whose text holds no calls, and one to a request without tools, go
/// back as they came.
pub proof fn law_plain_reply_untouched(reply: JsonTree)
    requires
        reply_calls(reply) is None,
    ensures
        bridged(reply) == reply,
{
}

/// Every call that the bridge makes names a tool and carries an id and
/// arguments.
pub proof fn law_calls_are_whole(cs: Seq<JsonTree>, i: int)
    requires
        0 <= i < full_calls(cs).len(),
    ensures
        exists|j: int|
            0 <= j < cs.len() && #[trigger] full_call(cs[j], j as nat) == full_calls(cs)[i]
                && call_name(cs[j]).len() > 0,
    decreases cs.len(),
{
    let front = cs.drop_last();
    if i < full_calls(front).len() {
        law_calls_are_whole(front, i);
        let j = choose|j: int|
            0 <= j < front.len() && #[trigger] full_call(front[j], j as nat) == full_calls(front)[i]
                && call_name(front[j]).len() > 0;
        assert(front[j] == cs[j]);
        assert(full_call(cs[j], j as nat) == full_calls(cs)[i]);
    } else {
        let j = cs.len() - 1;
        assert(full_call(cs[j], j as nat) == full_calls(cs)[i]);
    }
}

} // verus!
