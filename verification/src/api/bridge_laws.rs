//! What the bridge owes to both sides: calls come through as they were made,
//! results are told in full, and everything else is left alone.
use vstd::prelude::*;

use crate::api::tool_bridge;
use crate::api::tool_bridge::{
    bridged, call_name, extracted, full_call, full_calls, normalized, reply_calls, told_calls,
    tool_calls, upstream, TOOL_PROTOCOL,
};
use crate::json;
use crate::json::JsonTree;
use crate::text;

verus! {

proof fn lemma_two_steps(t: JsonTree, a: Seq<char>, b: Seq<char>)
    ensures
        t.at(seq![a, b]) == match t.step(a) {
            Some(m) => m.step(b),
            None => None,
        },
{
    reveal_with_fuel(JsonTree::at, 3);
    let p = seq![a, b];
    assert(p.drop_first() =~= seq![b]);
    assert(p[0] == a && seq![b][0] == b);
    if let Some(m) = t.step(a) {
        assert(seq![b].drop_first() =~= Seq::empty());
        if let Some(x) = m.step(b) {
            assert(x.at(Seq::empty()) == Some(x));
        }
    }
}

proof fn lemma_words()
    ensures
        "id"@ != "type"@,
        "id"@ != "function"@,
        "type"@ != "function"@,
        "name"@ != "arguments"@,
        "role"@ != "content"@,
        "role"@ != "tool_calls"@,
        "content"@ != "tool_calls"@,
        "choices"@ != "message"@,
        "message"@ != "finish_reason"@,
        "tool"@ != "assistant"@,
        "user"@ != "assistant"@,
        ""@.len() == 0,
{
    reveal_strlit("id");
    reveal_strlit("type");
    reveal_strlit("function");
    reveal_strlit("name");
    reveal_strlit("arguments");
    reveal_strlit("role");
    reveal_strlit("content");
    reveal_strlit("tool_calls");
    reveal_strlit("choices");
    reveal_strlit("message");
    reveal_strlit("finish_reason");
    reveal_strlit("tool");
    reveal_strlit("assistant");
    reveal_strlit("user");
    reveal_strlit("");
    assert("id"@.len() == 2 && "type"@.len() == 4 && "function"@.len() == 8);
    assert("name"@.len() == 4 && "arguments"@.len() == 9);
    assert("role"@.len() == 4 && "content"@.len() == 7 && "tool_calls"@.len() == 10);
    assert("choices"@.len() == 7 && "message"@.len() == 7 && "finish_reason"@.len() == 13);
    assert("choices"@[0] == 'c' && "message"@[0] == 'm');
    assert("tool"@.len() == 4 && "assistant"@.len() == 9 && "user"@.len() == 4);
}

proof fn lemma_call_paths(c: JsonTree, i: nat)
    ensures
        forall|key: Seq<char>|
            c.at(#[trigger] tool_bridge::function_path(key)) == match c.step("function"@) {
                Some(m) => m.step(key),
                None => None,
            },
        forall|key: Seq<char>|
            full_call(c, i).at(#[trigger] tool_bridge::function_path(key)) == match full_call(
                c,
                i,
            ).step("function"@) {
                Some(m) => m.step(key),
                None => None,
            },
{
    assert forall|key: Seq<char>|
        c.at(#[trigger] tool_bridge::function_path(key)) == match c.step("function"@) {
            Some(m) => m.step(key),
            None => None,
        } && full_call(c, i).at(tool_bridge::function_path(key)) == match full_call(c, i).step(
            "function"@,
        ) {
            Some(m) => m.step(key),
            None => None,
        } by {
        assert(tool_bridge::function_path(key) =~= seq!["function"@, key]);
        lemma_two_steps(c, "function"@, key);
        lemma_two_steps(full_call(c, i), "function"@, key);
    }
}

/// Arguments that are a text come through as that text: those of the function,
/// or else those of the call itself.
pub proof fn law_text_arguments_kept(c: JsonTree, i: nat, s: Seq<char>)
    ensures
        c.at(seq!["function"@, "arguments"@]) == Some(JsonTree::Text(s)) ==> full_call(c, i).at(
            seq!["function"@, "arguments"@],
        ) == Some(JsonTree::Text(s)),
        c.at(seq!["function"@, "arguments"@]) is None && c.member("arguments"@) == Some(
            JsonTree::Text(s),
        ) ==> full_call(c, i).at(seq!["function"@, "arguments"@]) == Some(JsonTree::Text(s)),
{
    lemma_words();
    lemma_call_paths(c, i);
    assert(tool_bridge::function_path("arguments"@) =~= seq!["function"@, "arguments"@]);
}

/// Arguments that are no text come through as their JSON, and a call without
/// arguments gets an empty object.
pub proof fn law_other_arguments_shown(c: JsonTree, i: nat, v: JsonTree)
    requires
        !(v is Text),
    ensures
        c.at(seq!["function"@, "arguments"@]) == Some(v) ==> full_call(c, i).at(
            seq!["function"@, "arguments"@],
        ) == Some(JsonTree::Text(json::json_text(v))),
        c.at(seq!["function"@, "arguments"@]) is None && c.member("arguments"@) == Some(v)
            ==> full_call(c, i).at(seq!["function"@, "arguments"@]) == Some(
            JsonTree::Text(json::json_text(v)),
        ),
        c.at(seq!["function"@, "arguments"@]) is None && c.member("arguments"@) is None
            ==> full_call(c, i).at(seq!["function"@, "arguments"@]) == Some(
            JsonTree::Text("{}"@),
        ),
{
    lemma_words();
    lemma_call_paths(c, i);
    assert(tool_bridge::function_path("arguments"@) =~= seq!["function"@, "arguments"@]);
}

/// A call keeps its name and its id; one without an id is numbered by its place.
/// It is marked as a call of a function.
pub proof fn law_name_and_id_kept(c: JsonTree, i: nat, s: Seq<char>)
    ensures
        c.at(seq!["function"@, "name"@]) == Some(JsonTree::Text(s)) ==> full_call(c, i).at(
            seq!["function"@, "name"@],
        ) == Some(JsonTree::Text(s)),
        c.at(seq!["function"@, "name"@]) is None && c.member("name"@) == Some(JsonTree::Text(s))
            ==> full_call(c, i).at(seq!["function"@, "name"@]) == Some(JsonTree::Text(s)),
        c.member("id"@) == Some(JsonTree::Text(s)) ==> full_call(c, i).member("id"@) == Some(
            JsonTree::Text(s),
        ),
        c.member("id"@) is None ==> full_call(c, i).member("id"@) == Some(
            JsonTree::Text("call_"@ + text::dec(i)),
        ),
        full_call(c, i).member("type"@) == Some(JsonTree::Text("function"@)),
{
    lemma_words();
    lemma_call_paths(c, i);
    assert(tool_bridge::function_path("name"@) =~= seq!["function"@, "name"@]);
}

/// A call in full form: an id, the mark of a function, and the function's name
/// and arguments as texts.
pub open spec fn in_full(
    id: Seq<char>,
    name: Seq<char>,
    arguments: Seq<char>,
) -> JsonTree {
    JsonTree::Object(
        map![
            "id"@ => JsonTree::Text(id),
            "type"@ => JsonTree::Text("function"@),
            "function"@ => JsonTree::Object(
                map![
                    "name"@ => JsonTree::Text(name),
                    "arguments"@ => JsonTree::Text(arguments),
                ],
            ),
        ],
    )
}

/// A call that is in full form already is taken as it is.
pub proof fn law_full_call_unchanged(
    id: Seq<char>,
    name: Seq<char>,
    arguments: Seq<char>,
    i: nat,
)
    ensures
        full_call(in_full(id, name, arguments), i) == in_full(id, name, arguments),
        call_name(in_full(id, name, arguments)) == name,
{
    lemma_words();
    lemma_call_paths(in_full(id, name, arguments), i);
    assert(tool_bridge::function_path("name"@) =~= seq!["function"@, "name"@]);
    assert(tool_bridge::function_path("arguments"@) =~= seq!["function"@, "arguments"@]);
    let c = in_full(id, name, arguments);
    let d = full_call(c, i);
    assert(c is Object && d is Object);
    let f = c->Object_0["function"@];
    let g = d->Object_0["function"@];
    assert(f->Object_0 =~= g->Object_0);
    assert(c->Object_0 =~= d->Object_0);
}

/// Calls that are in full form already are read out as they are, all of them
/// and in their order.
pub proof fn law_full_calls_unchanged(
    cs: Seq<JsonTree>,
    ids: Seq<Seq<char>>,
    names: Seq<Seq<char>>,
    arguments: Seq<Seq<char>>,
)
    requires
        ids.len() == cs.len(),
        names.len() == cs.len(),
        arguments.len() == cs.len(),
        forall|i: int|
            0 <= i < cs.len() ==> #[trigger] cs[i] == in_full(ids[i], names[i], arguments[i])
                && names[i].len() > 0,
    ensures
        full_calls(cs) == cs,
    decreases cs.len(),
{
    if cs.len() > 0 {
        let n = cs.len() - 1;
        law_full_calls_unchanged(
            cs.drop_last(),
            ids.drop_last(),
            names.drop_last(),
            arguments.drop_last(),
        );
        assert(cs[n] == in_full(ids[n], names[n], arguments[n]));
        law_full_call_unchanged(ids[n], names[n], arguments[n], n as nat);
        assert(cs.drop_last().push(cs.last()) =~= cs);
    }
}

/// What a value tells under `tool_calls` is what is read out of it, and a value
/// that tells no named call there tells nothing.
pub proof fn law_told_calls(v: JsonTree, cs: Seq<JsonTree>)
    ensures
        v.member("tool_calls"@) == Some(JsonTree::List(cs)) && full_calls(cs).len() > 0
            ==> told_calls(v) == Some(full_calls(cs)),
        v.member("tool_calls"@) == Some(JsonTree::List(cs)) && full_calls(cs).len() == 0
            ==> told_calls(v) is None,
        v.member("tool_calls"@) is None ==> told_calls(v) is None,
{
}

/// Every call that names a tool is read out, in the order of the list: adding
/// one call adds its full form at the end, and adding one without a name adds
/// nothing.
pub proof fn law_calls_one_by_one(cs: Seq<JsonTree>, c: JsonTree, s: Seq<char>)
    ensures
        full_calls(Seq::empty()).len() == 0,
        c.at(seq!["function"@, "name"@]) == Some(JsonTree::Text(s)) && s.len() > 0 ==> full_calls(
            cs.push(c),
        ) == full_calls(cs).push(full_call(c, cs.len())),
        c.at(seq!["function"@, "name"@]) is None && c.member("name"@) == Some(JsonTree::Text(s))
            && s.len() > 0 ==> full_calls(cs.push(c)) == full_calls(cs).push(
            full_call(c, cs.len()),
        ),
        c.at(seq!["function"@, "name"@]) is None && c.member("name"@) is None ==> full_calls(
            cs.push(c),
        ) == full_calls(cs),
{
    lemma_words();
    assert(tool_bridge::function_path("name"@) =~= seq!["function"@, "name"@]);
    assert(cs.push(c).drop_last() =~= cs);
}

/// A text that is JSON but for white space around it says that JSON.
pub proof fn law_whole_text_is_json(s: Seq<char>, v: JsonTree)
    requires
        json::json_read(text::trimmed(s)) == Some(v),
    ensures
        extracted(s) == Some(v),
        tool_calls(s) == told_calls(v),
{
}

proof fn lemma_brace_first(s: Seq<char>, i: int)
    requires
        0 <= i < s.len(),
        s[i] == '{',
        forall|j: int| 0 <= j < i ==> #[trigger] s[j] != '{',
    ensures
        tool_bridge::first_of(s, '{') == Some(i),
    decreases s.len(),
{
    if i > 0 {
        assert(s[0] != '{');
        let rest = s.drop_first();
        assert forall|j: int| 0 <= j < i - 1 implies #[trigger] rest[j] != '{' by {
            assert(rest[j] == s[j + 1]);
        }
        lemma_brace_first(rest, i - 1);
    }
}

proof fn lemma_brace_last(s: Seq<char>, i: int)
    requires
        0 <= i < s.len(),
        s[i] == '}',
        forall|j: int| i < j < s.len() ==> #[trigger] s[j] != '}',
    ensures
        tool_bridge::last_of(s, '}') == Some(i),
    decreases s.len(),
{
    if i < s.len() - 1 {
        assert(s[s.len() - 1] != '}');
        let front = s.drop_last();
        assert forall|j: int| i < j < front.len() implies #[trigger] front[j] != '}' by {
            assert(front[j] == s[j]);
        }
        lemma_brace_last(front, i);
    }
}

/// An object inside other words is found: where the text as a whole is no JSON,
/// it says what stands from its first opening to its last closing brace.
pub proof fn law_object_among_words(front: Seq<char>, object: Seq<char>, back: Seq<char>)
    requires
        object.len() >= 2,
        object[0] == '{',
        object.last() == '}',
        !front.contains('{'),
        !back.contains('}'),
        json::json_read(text::trimmed(front + object + back)) is None,
    ensures
        extracted(front + object + back) == json::json_read(object),
{
    let s = front + object + back;
    let t = text::trimmed(s);
    text::law_trimmed(s);
    let (a, b) = choose|a: int, b: int|
        {
            &&& 0 <= a <= b <= s.len()
            &&& t == #[trigger] s.subrange(a, b)
            &&& forall|i: int|
                (0 <= i < a || b <= i < s.len()) ==> text::is_space(#[trigger] s[i])
        };
    let i = front.len() as int;
    let j = i + object.len() - 1;
    assert(s[i] == '{' && s[j] == '}');
    assert(!text::is_space('{') && !text::is_space('}'));
    assert(a <= i && j < b);
    assert(t[i - a] == '{' && t[j - a] == '}');
    assert forall|k: int| 0 <= k < i - a implies #[trigger] t[k] != '{' by {
        assert(t[k] == s[k + a]);
        assert(s[k + a] == front[k + a]);
    }
    assert forall|k: int| j - a < k < t.len() implies #[trigger] t[k] != '}' by {
        assert(t[k] == s[k + a]);
        assert(s[k + a] == back[k + a - j - 1]);
    }
    lemma_brace_first(t, i - a);
    lemma_brace_last(t, j - a);
    assert(t.subrange(i - a, j - a + 1) =~= object);
}

proof fn lemma_not_a_number()
    ensures
        json::index_of("message"@) is None,
        json::index_of("finish_reason"@) is None,
{
    reveal_strlit("message");
    reveal_strlit("finish_reason");
    let m = "message"@;
    let f = "finish_reason"@;
    assert(m.len() == 7 && m[0] == 'm' && f.len() == 13 && f[0] == 'f');
    assert(!text::is_digit(text::unsigned(m)[0]));
    assert(!text::is_digit(text::unsigned(f)[0]));
}

proof fn lemma_three_steps(t: JsonTree, a: Seq<char>, b: Seq<char>, c: Seq<char>)
    ensures
        t.at(seq![a, b, c]) == match t.step(a) {
            Some(m) => match m.step(b) {
                Some(x) => x.step(c),
                None => None,
            },
            None => None,
        },
{
    assert(seq![a, b, c].drop_first() =~= seq![b, c]);
    if let Some(m) = t.step(a) {
        lemma_two_steps(m, b, c);
    }
}

proof fn lemma_three_replaced(
    t: JsonTree,
    a: Seq<char>,
    b: Seq<char>,
    c: Seq<char>,
    new: JsonTree,
)
    ensures
        t.replaced(seq![a, b, c], new) == (match (t, t.step(a)) {
            (JsonTree::Object(m), Some(x)) => JsonTree::Object(
                m.insert(a, x.replaced(seq![b, c], new)),
            ),
            (JsonTree::List(s), Some(x)) => JsonTree::List(
                s.update(json::index_of(a)->Some_0 as int, x.replaced(seq![b, c], new)),
            ),
            _ => t,
        }),
        t.replaced(seq![b, c], new) == (match (t, t.step(b)) {
            (JsonTree::Object(m), Some(x)) => JsonTree::Object(
                m.insert(b, x.replaced(seq![c], new)),
            ),
            (JsonTree::List(s), Some(x)) => JsonTree::List(
                s.update(json::index_of(b)->Some_0 as int, x.replaced(seq![c], new)),
            ),
            _ => t,
        }),
        t.replaced(seq![c], new) == (match (t, t.step(c)) {
            (JsonTree::Object(m), Some(x)) => JsonTree::Object(m.insert(c, new)),
            (JsonTree::List(s), Some(x)) => JsonTree::List(
                s.update(json::index_of(c)->Some_0 as int, new),
            ),
            _ => t,
        }),
{
    assert(seq![a, b, c].drop_first() =~= seq![b, c]);
    assert(seq![b, c].drop_first() =~= seq![c]);
    assert(seq![c].drop_first() =~= Seq::empty());
    if let Some(x) = t.step(c) {
        assert(x.replaced(Seq::empty(), new) == new);
    }
}

/// An answer that holds calls goes back as a message that makes exactly these
/// calls and says nothing else, its end is marked as a call of tools, and the
/// rest of the reply stays as it was.
pub proof fn law_reply_makes_calls(reply: JsonTree, calls: Seq<JsonTree>, key: Seq<char>)
    requires
        reply_calls(reply) == Some(calls),
    ensures
        ({
            let after = bridged(reply);
            let to_message = seq!["choices"@, "0"@, "message"@];
            let to_finish = seq!["choices"@, "0"@, "finish_reason"@];
            &&& after.at(to_message) is Some
            &&& ({
                let m = after.at(to_message).unwrap();
                &&& m.member("role"@) == Some(JsonTree::Text("assistant"@))
                &&& m.member("content"@) == Some(JsonTree::Null)
                &&& m.member("tool_calls"@) == Some(JsonTree::List(calls))
            })
            &&& reply.at(to_finish) is Some ==> after.at(to_finish) == Some(
                JsonTree::Text("tool_calls"@),
            )
            &&& reply.at(to_finish) is None ==> after.at(to_finish) is None
            &&& key != "choices"@ ==> after.member(key) == reply.member(key)
        }),
{
    lemma_words();
    lemma_not_a_number();
    let (a, b, c, d) = ("choices"@, "0"@, "message"@, "finish_reason"@);
    let msg = tool_bridge::calling_message(calls);
    let done = JsonTree::Text("tool_calls"@);
    assert(tool_bridge::message_path() =~= seq![a, b, c]);
    assert(tool_bridge::finish_path() =~= seq![a, b, d]);
    let p = tool_bridge::content_path();
    assert(p.drop_first() =~= seq![b, c, "content"@]);
    assert(reply.at(p) is Some);
    let x = reply.step(a).unwrap();
    lemma_three_steps(x, b, c, "content"@);
    let y = x.step(b).unwrap();
    let z = y.step(c).unwrap();
    assert(y is Object);
    lemma_three_steps(reply, a, b, c);
    lemma_three_steps(reply, a, b, d);
    lemma_three_replaced(reply, a, b, c, msg);
    lemma_three_replaced(x, a, b, c, msg);
    lemma_three_replaced(y, a, b, c, msg);
    let y1 = y.replaced(seq![c], msg);
    let x1 = x.replaced(seq![b, c], msg);
    let told = reply.replaced(seq![a, b, c], msg);
    assert(y1 is Object && y1.step(c) == Some(msg));
    assert(x1.step(b) == Some(y1));
    assert(told.step(a) == Some(x1));
    assert(y1.step(d) == y.step(d));
    lemma_three_steps(told, a, b, c);
    lemma_three_steps(told, a, b, d);
    if told.at(seq![a, b, d]) is Some {
        lemma_three_replaced(told, a, b, d, done);
        lemma_three_replaced(x1, a, b, d, done);
        lemma_three_replaced(y1, a, b, d, done);
        let y2 = y1.replaced(seq![d], done);
        let x2 = x1.replaced(seq![b, d], done);
        let last = told.replaced(seq![a, b, d], done);
        assert(y2.step(d) == Some(done) && y2.step(c) == Some(msg));
        assert(x2.step(b) == Some(y2));
        assert(last.step(a) == Some(x2));
        lemma_three_steps(last, a, b, c);
        lemma_three_steps(last, a, b, d);
    }
}

/// Messages of the user and the system go upstream as they are.
pub proof fn law_other_roles_untouched(t: JsonTree, role: Seq<char>)
    requires
        t.member("role"@) == Some(JsonTree::Text(role)),
        role != "tool"@,
        role != "assistant"@,
    ensures
        normalized(t) == t,
{
}

/// What a tool gave goes upstream as the user's words: they name the tool and
/// end with all that it gave.
pub proof fn law_tool_result_told(t: JsonTree, name: Seq<char>, output: Seq<char>)
    requires
        t.member("role"@) == Some(JsonTree::Text("tool"@)),
        t.member("name"@) == Some(JsonTree::Text(name)),
        t.member("content"@) == Some(JsonTree::Text(output)),
    ensures
        normalized(t).member("role"@) == Some(JsonTree::Text("user"@)),
        normalized(t).member("content"@) matches Some(JsonTree::Text(said)) && text::ends(
            said,
            output,
        ) && text::begins(said, "Tool `"@ + name + "` result:\n"@) && said.len() == ("Tool `"@
            + name + "` result:\n"@).len() + output.len(),
{
    lemma_words();
    let head = "Tool `"@ + name + "` result:\n"@;
    let said = head + output;
    assert(said.skip(said.len() - output.len()) =~= output);
    assert(said.take(head.len() as int) =~= head);
    assert(normalized(t) == tool_bridge::message("user"@, said));
}

/// What the assistant said before it called tools goes upstream in front of its
/// calls, which come as JSON.
pub proof fn law_assistant_calls_told(t: JsonTree, said: Seq<char>, calls: JsonTree)
    requires
        t.member("role"@) == Some(JsonTree::Text("assistant"@)),
        t.member("tool_calls"@) == Some(calls),
        t.member("content"@) == Some(JsonTree::Text(said)),
    ensures
        normalized(t).member("role"@) == Some(JsonTree::Text("assistant"@)),
        normalized(t).member("content"@) matches Some(JsonTree::Text(all)) && text::begins(
            all,
            said,
        ) && text::ends(
            all,
            json::json_text(JsonTree::Object(map!["tool_calls"@ => calls])),
        ),
{
    lemma_words();
    let shown = json::json_text(json::single("tool_calls"@, calls));
    assert(json::single("tool_calls"@, calls) == JsonTree::Object(map!["tool_calls"@ => calls]));
    if said.len() == 0 {
        assert(shown.take(0) =~= said);
        assert(shown.skip(0) =~= shown);
        assert(normalized(t) == tool_bridge::message("assistant"@, shown));
    } else {
        let all = said + "\n"@ + shown;
        assert(all.take(said.len() as int) =~= said);
        assert(all.skip(all.len() - shown.len()) =~= shown);
        assert(normalized(t) == tool_bridge::message("assistant"@, all));
    }
}

/// What the assistant said without calling tools goes upstream as it is, and an
/// assistant's message without content gets an empty one.
pub proof fn law_assistant_words_kept(t: JsonTree, said: Seq<char>)
    requires
        t.member("role"@) == Some(JsonTree::Text("assistant"@)),
        t.member("tool_calls"@) is None,
    ensures
        t.member("content"@) == Some(JsonTree::Text(said)) ==> normalized(t) == t,
        t.member("content"@) is None ==> normalized(t).member("content"@) == Some(
            JsonTree::Text(""@),
        ) && normalized(t).member("role"@) == t.member("role"@),
{
    lemma_words();
}

/// Upstream come all messages in their order, each in plain form, and in front
/// of them, where there are tools, one that tells the protocol and the tools.
pub proof fn law_upstream_messages(ms: Seq<JsonTree>, tools: Seq<JsonTree>, i: int)
    requires
        0 <= i < ms.len(),
    ensures
        upstream(ms, None).len() == ms.len(),
        upstream(ms, None)[i] == normalized(ms[i]),
        tools.len() == 0 ==> upstream(ms, Some(tools)) == upstream(ms, None),
        tools.len() > 0 ==> {
            let all = upstream(ms, Some(tools));
            &&& all.len() == ms.len() + 1
            &&& all[i + 1] == normalized(ms[i])
            &&& all[0].member("role"@) == Some(JsonTree::Text("system"@))
            &&& all[0].member("content"@) matches Some(JsonTree::Text(said)) && text::begins(
                said,
                TOOL_PROTOCOL@,
            ) && text::ends(said, json::pretty_text(tools) + "\n"@)
        },
{
    lemma_words();
    let shown = json::pretty_text(tools);
    let said = TOOL_PROTOCOL@ + "\nAvailable tools (OpenAI schema):\n"@ + shown + "\n"@;
    assert(said.take(TOOL_PROTOCOL@.len() as int) =~= TOOL_PROTOCOL@);
    assert(said.skip(said.len() - (shown + "\n"@).len()) =~= shown + "\n"@);
    assert(tool_bridge::tools_message(tools) == tool_bridge::message("system"@, said));
}

/// A call's function is given this text for its arguments.
pub open spec fn argued(c: JsonTree, s: Seq<char>) -> bool {
    c.at(seq!["function"@, "arguments"@]) == Some(JsonTree::Text(s))
}

/// The textual arguments of every call that names its tool come through, in a
/// call of their own.
pub proof fn law_arguments_come_through(cs: Seq<JsonTree>, k: int, s: Seq<char>)
    requires
        0 <= k < cs.len(),
        call_name(cs[k]).len() > 0,
        argued(cs[k], s),
    ensures
        exists|j: int| 0 <= j < full_calls(cs).len() && #[trigger] argued(full_calls(cs)[j], s),
    decreases cs.len(),
{
    let front = cs.drop_last();
    let calls = full_calls(cs);
    if k < front.len() {
        law_arguments_come_through(front, k, s);
        let j = choose|j: int|
            0 <= j < full_calls(front).len() && #[trigger] argued(full_calls(front)[j], s);
        assert(calls[j] == full_calls(front)[j]);
        assert(argued(calls[j], s));
    } else {
        law_text_arguments_kept(cs[k], k as nat, s);
        assert(calls[calls.len() - 1] == full_call(cs[k], k as nat));
        assert(argued(calls[calls.len() - 1], s));
    }
}

} // verus!
