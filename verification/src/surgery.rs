//! Cleaning up the message list that the context agent edits as JSON.
use vstd::prelude::*;

use crate::message::{opt_str_view, opt_tool_calls_view, string_is, Message, MessageView, ToolCallValue};

verus! {

/// A message as read from the context file, before it is cleaned up: `role` is `None` when
/// it is missing or not a string, `content` and `reasoning_content` when they are missing or
/// null, `tool_calls` when it is missing or not an array.
pub struct RawMessage {
    pub role: Option<String>,
    pub content: Option<String>,
    pub name: Option<String>,
    pub reasoning_content: Option<String>,
    pub tool_calls: Option<Vec<ToolCallValue>>,
    pub tool_call_id: Option<String>,
}

/// The cleaned-up message of a raw message with a role: a missing content becomes empty, an
/// assistant message gets an empty reasoning when it has none, and an empty list of tool
/// calls is dropped.
pub open spec fn cleaned(m: RawMessage) -> MessageView {
    let role = m.role->0@;
    MessageView {
        role,
        content: match m.content {
            Some(c) => c@,
            None => Seq::empty(),
        },
        name: opt_str_view(m.name),
        reasoning_content: if role == "assistant"@ && m.reasoning_content is None {
            Some(Seq::empty())
        } else {
            opt_str_view(m.reasoning_content)
        },
        tool_calls: match m.tool_calls {
            Some(v) => if v@.len() == 0 {
                None
            } else {
                opt_tool_calls_view(m.tool_calls)
            },
            None => None,
        },
        tool_call_id: opt_str_view(m.tool_call_id),
    }
}

/// The cleaned-up messages: those without a role are dropped, the others cleaned up in
/// order.
pub open spec fn cleaned_all(s: Seq<RawMessage>) -> Seq<MessageView>
    decreases s.len(),
{
    if s.len() == 0 {
        Seq::empty()
    } else {
        let rest = cleaned_all(s.drop_last());
        if s.last().role is Some {
            rest.push(cleaned(s.last()))
        } else {
            rest
        }
    }
}

fn clean(m: RawMessage) -> (r: Message)
    requires
        m.role is Some,
    ensures
        r@ == cleaned(m),
{
    let role = match m.role {
        Some(r) => r,
        None => String::new(),
    };
    let is_assistant = string_is(&role, "assistant");
    let content = match m.content {
        Some(c) => c,
        None => String::new(),
    };
    let reasoning_content = if is_assistant && m.reasoning_content.is_none() {
        Some(String::new())
    } else {
        m.reasoning_content
    };
    let tool_calls = match m.tool_calls {
        Some(v) => if v.len() == 0 {
            None
        } else {
            Some(v)
        },
        None => None,
    };
    Message { role, content, name: m.name, reasoning_content, tool_calls, tool_call_id: m.tool_call_id }
}

/// Cleans up the messages of the context file (see `cleaned_all`).
pub fn normalize_messages(raw: Vec<RawMessage>) -> (r: Vec<Message>)
    ensures
        crate::message::msgs_view(r@) == cleaned_all(raw@),
{
    let ghost rv = raw@;
    let mut out: Vec<Message> = Vec::new();
    let mut src = raw;
    let mut rev: Vec<RawMessage> = Vec::new();
    // take the entries off the back, then handle them front to back
    while src.len() > 0
        invariant
            rev@ + src@.reverse() == rv.reverse(),
        decreases src.len(),
    {
        let ghost before = src@;
        let m = src.pop().unwrap();
        rev.push(m);
        proof {
            assert(before == src@.push(m));
            assert(before.reverse() =~= seq![m] + src@.reverse());
            assert(rev@ + src@.reverse() =~= (rev@.drop_last() + seq![m]) + src@.reverse());
        }
    }
    proof {
        assert(src@.reverse() =~= Seq::<RawMessage>::empty());
        assert(rev@ =~= rv.reverse());
    }
    let n = rev.len();
    let mut i: usize = 0;
    while i < n
        invariant
            n == rv.len(),
            i <= n,
            rev@.len() == n - i,
            forall|q: int| 0 <= q < rev@.len() ==> #[trigger] rev@[q] == rv[n - 1 - q],
            crate::message::msgs_view(out@) == cleaned_all(rv.take(i as int)),
        decreases n - i,
    {
        let ghost before = rev@;
        let m = rev.pop().unwrap();
        proof {
            assert(m == rv[i as int]);
            assert(rv.take(i + 1).drop_last() =~= rv.take(i as int));
            assert(rv.take(i + 1).last() == rv[i as int]);
            assert forall|q: int| 0 <= q < rev@.len() implies #[trigger] rev@[q] == rv[n - 1 - q] by {
                assert(rev@[q] == before[q]);
            }
        }
        if m.role.is_some() {
            let ghost ov = crate::message::msgs_view(out@);
            let c = clean(m);
            out.push(c);
            proof {
                assert(crate::message::msgs_view(out@) =~= ov.push(c@));
            }
        }
        i = i + 1;
    }
    proof {
        assert(rv.take(n as int) =~= rv);
    }
    out
}

} // verus!
