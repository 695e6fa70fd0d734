//! Tools by name.
use vstd::prelude::*;

use crate::error::{TrajectError, TrajectErrorView};
use crate::step::{ToolCall, ToolCallView, ToolResult, ToolResultView};

verus! {

/// A tool: it has a name, and answers calls. Nothing is known of its answers.
pub trait ToolHandler {
    /// The name under which the tool is registered.
    spec fn title(&self) -> Seq<char>;

    fn name(&self) -> (res: String)
        ensures
            res@ == self.title(),
    ;

    fn invoke(&self, call: &ToolCall) -> Result<ToolResult, TrajectError>;
}

/// The answer to a call of a tool that nobody registered.
pub open spec fn not_registered(tool: Seq<char>) -> TrajectErrorView {
    TrajectErrorView::ToolFailed { tool, reason: "tool not registered"@ }
}

/// Tools by name, each once; `H` is whatever runs a tool.
pub struct ToolRegistry<H> {
    handlers: Vec<(String, H)>,
}

spec fn knows<H>(v: Seq<(String, H)>, name: Seq<char>) -> bool {
    exists|i: int| 0 <= i < v.len() && (#[trigger] v[i]).0@ == name
}

spec fn place<H>(v: Seq<(String, H)>, name: Seq<char>) -> int {
    choose|i: int| 0 <= i < v.len() && (#[trigger] v[i]).0@ == name
}

impl<H> View for ToolRegistry<H> {
    type V = Map<Seq<char>, H>;

    closed spec fn view(&self) -> Map<Seq<char>, H> {
        Map::new(
            |name: Seq<char>| knows(self.handlers@, name),
            |name: Seq<char>| self.handlers@[place(self.handlers@, name)].1,
        )
    }
}

impl<H> ToolRegistry<H> {
    /// Each name stands once.
    pub closed spec fn wf(self) -> bool {
        forall|i: int, j: int|
            0 <= i < j < self.handlers@.len() ==> (#[trigger] self.handlers@[i]).0@ != (
            #[trigger] self.handlers@[j]).0@
    }

    pub fn new() -> (res: Self)
        ensures
            res.wf(),
            res@ == Map::<Seq<char>, H>::empty(),
    {
        let res = ToolRegistry { handlers: Vec::new() };
        assert(res@ =~= Map::<Seq<char>, H>::empty());
        res
    }

    fn find(&self, name: &str) -> (res: Option<usize>)
        ensures
            match res {
                Some(i) => i < self.handlers@.len() && self.handlers@[i as int].0@ == name@,
                None => !knows(self.handlers@, name@),
            },
    {
        let wanted: String = name.to_string();
        let mut i: usize = 0;
        while i < self.handlers.len()
            invariant
                wanted@ == name@,
                i <= self.handlers@.len(),
                forall|j: int| 0 <= j < i ==> (#[trigger] self.handlers@[j]).0@ != name@,
            decreases self.handlers@.len() - i,
        {
            if self.handlers[i].0 == wanted {
                return Some(i);
            }
            i += 1;
        }
        None
    }

    /// Registers a tool under a name; one that was there before goes.
    pub fn register_as(&mut self, name: &str, handler: H)
        requires
            old(self).wf(),
        ensures
            final(self).wf(),
            final(self)@ == old(self)@.insert(name@, handler),
    {
        let ghost was = self.handlers@;
        match self.find(name) {
            Some(i) => {
                self.handlers.set(i, (name.to_string(), handler));
                proof {
                    let now = self.handlers@;
                    assert(forall|j: int| 0 <= j < was.len() ==> (#[trigger] now[j]).0@ == was[j].0@);
                    assert forall|t: Seq<char>| #[trigger] knows(now, t) == knows(was, t) && (knows(
                        now,
                        t,
                    ) ==> place(now, t) == place(was, t)) by {
                        if knows(was, t) {
                            let k = place(was, t);
                            assert(now[k].0@ == t);
                        }
                        if knows(now, t) {
                            let k = place(now, t);
                            assert(was[k].0@ == t);
                            let l = place(was, t);
                            assert(was[l].0@ == t);
                        }
                    }
                    assert(knows(was, name@)) by {
                        assert(was[i as int].0@ == name@);
                    }
                    assert(place(was, name@) == i);
                    assert(self@ =~= old(self)@.insert(name@, handler));
                }
            },
            None => {
                self.handlers.push((name.to_string(), handler));
                proof {
                    let now = self.handlers@;
                    assert(forall|j: int| 0 <= j < was.len() ==> #[trigger] now[j] == was[j]);
                    assert(now[was.len() as int].0@ == name@);
                    assert forall|t: Seq<char>| #[trigger] knows(now, t) == (knows(was, t) || t
                        == name@) by {
                        if knows(was, t) {
                            let k = place(was, t);
                            assert(now[k].0@ == t);
                        }
                        if knows(now, t) && t != name@ {
                            let k = place(now, t);
                            assert(was[k].0@ == t);
                        }
                    }
                    assert forall|t: Seq<char>| #[trigger] knows(was, t) implies place(now, t)
                        == place(was, t) by {
                        let k = place(was, t);
                        assert(now[k].0@ == t);
                        let l = place(now, t);
                        assert(now[l].0@ == t);
                        assert(l < was.len());
                    }
                    assert(place(now, name@) == was.len());
                    assert(self@ =~= old(self)@.insert(name@, handler));
                }
            },
        }
    }

    pub fn get(&self, name: &str) -> (res: Option<&H>)
        requires
            self.wf(),
        ensures
            match res {
                Some(h) => self@.dom().contains(name@) && *h == self@[name@],
                None => !self@.dom().contains(name@),
            },
    {
        match self.find(name) {
            Some(i) => {
                proof {
                    assert(knows(self.handlers@, name@));
                    assert(place(self.handlers@, name@) == i);
                }
                Some(&self.handlers[i].1)
            },
            None => None,
        }
    }

    /// The tool that a call is for.
    pub fn handler_for(&self, call: &ToolCall) -> (res: Result<&H, TrajectError>)
        requires
            self.wf(),
        ensures
            match res {
                Ok(h) => self@.dom().contains(call@.name) && *h == self@[call@.name],
                Err(e) => !self@.dom().contains(call@.name) && e@ == not_registered(call@.name),
            },
    {
        match self.get(call.name.as_str()) {
            Some(h) => Ok(h),
            None => Err(
                TrajectError::ToolFailed {
                    tool: call.name.clone(),
                    reason: "tool not registered".to_string(),
                },
            ),
        }
    }
}

impl<H: ToolHandler> ToolRegistry<H> {
    /// Registers a tool under its own name.
    pub fn register(&mut self, handler: H)
        requires
            old(self).wf(),
        ensures
            final(self).wf(),
            final(self)@ == old(self)@.insert(handler.title(), handler),
    {
        let name = handler.name();
        self.register_as(name.as_str(), handler);
    }

    /// Calls the tool that the call names: the answer is the tool's own, or
    /// that there is no such tool.
    pub fn invoke(&self, call: &ToolCall) -> (res: Result<ToolResult, TrajectError>)
        requires
            self.wf(),
        ensures
            if self@.dom().contains(call@.name) {
                call_ensures(H::invoke, (&self@[call@.name], call), res)
            } else {
                res matches Err(e) && e@ == not_registered(call@.name)
            },
    {
        match self.handler_for(call) {
            Ok(h) => h.invoke(call),
            Err(e) => Err(e),
        }
    }
}

impl<H> Default for ToolRegistry<H> {
    fn default() -> (res: Self)
        ensures
            res.wf(),
            res@ == Map::<Seq<char>, H>::empty(),
    {
        Self::new()
    }
}

/// Echo tool for smoke tests.
#[derive(Debug, Clone, Copy)]
pub struct EchoTool;

/// What the echo tool answers: the call's own arguments.
pub open spec fn echoed(call: ToolCallView) -> ToolResultView {
    ToolResultView {
        call_id: call.call_id,
        name: call.name,
        output: call.arguments,
        is_error: false,
    }
}

impl ToolHandler for EchoTool {
    open spec fn title(&self) -> Seq<char> {
        "echo"@
    }

    fn name(&self) -> (res: String) {
        "echo".to_string()
    }

    fn invoke(&self, call: &ToolCall) -> (res: Result<ToolResult, TrajectError>)
        ensures
            res matches Ok(r) && r@ == echoed(call@),
    {
        Ok(
            ToolResult {
                call_id: crate::text::clone_opt(&call.call_id),
                name: call.name.clone(),
                output: call.arguments.clone(),
                is_error: false,
            },
        )
    }
}

/// The echo tool gives back the arguments that it was called with, under the
/// call's own name and id, and never as an error.
pub proof fn law_echo(call: ToolCallView)
    ensures
        echoed(call).output == call.arguments,
        echoed(call).name == call.name,
        echoed(call).call_id == call.call_id,
        !echoed(call).is_error,
{
}

/// A call of a tool that nobody registered fails, and names the tool.
pub proof fn law_not_registered(tool: Seq<char>)
    ensures
        not_registered(tool) is ToolFailed,
        not_registered(tool)->ToolFailed_tool == tool,
        not_registered(tool)->reason == "tool not registered"@,
{
}

} // verus!
