//! What the chat API is sent (the request messages) and what its stream hands back.
use vstd::prelude::*;

use crate::message::{
    all_calls_orphan, calls_all_orphan, clone_opt_string, has_tool_result, is_completed,
    is_declared_by, is_declared_in, msgs_view, opt_str_view, opt_tool_calls_view, string_is,
    tool_calls_view, Message, MessageView, ToolCallValue, ToolCallView,
};

verus! {

/// One message of a chat request, field by field as the API receives it.
/// `content: None` is sent as JSON `null`; a field that is `None` otherwise is left out.
pub struct ApiMessage {
    pub role: String,
    pub content: Option<String>,
    pub reasoning_content: Option<String>,
    pub name: Option<String>,
    pub tool_calls: Option<Vec<ToolCallValue>>,
    pub tool_call_id: Option<String>,
}

pub struct ApiMessageView {
    pub role: Seq<char>,
    pub content: Option<Seq<char>>,
    pub reasoning_content: Option<Seq<char>>,
    pub name: Option<Seq<char>>,
    pub tool_calls: Option<Seq<ToolCallView>>,
    pub tool_call_id: Option<Seq<char>>,
}

impl View for ApiMessage {
    type V = ApiMessageView;

    open spec fn view(&self) -> ApiMessageView {
        ApiMessageView {
            role: self.role@,
            content: opt_str_view(self.content),
            reasoning_content: opt_str_view(self.reasoning_content),
            name: opt_str_view(self.name),
            tool_calls: opt_tool_calls_view(self.tool_calls),
            tool_call_id: opt_str_view(self.tool_call_id),
        }
    }
}

pub open spec fn api_msgs_view(s: Seq<ApiMessage>) -> Seq<ApiMessageView> {
    s.map_values(|m: ApiMessage| m@)
}

/// The calls of `calls` that some tool message of `all` answers, in order.
pub open spec fn answered_calls(all: Seq<MessageView>, calls: Seq<ToolCallView>) -> Seq<
    ToolCallView,
>
    decreases calls.len(),
{
    if calls.len() == 0 {
        Seq::empty()
    } else {
        let rest = answered_calls(all, calls.drop_last());
        if is_completed(all, calls.last().id) {
            rest.push(calls.last())
        } else {
            rest
        }
    }
}

/// Whether the message has calls, none of which is answered in `all`.
pub open spec fn calls_orphaned(all: Seq<MessageView>, m: MessageView) -> bool {
    match m.tool_calls {
        Some(calls) => all_calls_orphan(all, calls),
        None => false,
    }
}

/// What the request holds for the `i`-th message of the history `all`, or `None` when that
/// message is left out: an assistant message with only unanswered calls and no text, and a
/// tool message whose call no earlier (or the same) message issued.
pub open spec fn api_of(all: Seq<MessageView>, i: int) -> Option<ApiMessageView> {
    let m = all[i];
    let orphan = calls_orphaned(all, m);
    if m.role == "assistant"@ && orphan && m.content.len() == 0 {
        None
    } else if m.role == "tool"@ && (match m.tool_call_id {
        Some(id) => !is_declared_by(all.take(i + 1), id, true),
        None => false,
    }) {
        None
    } else {
        Some(
            ApiMessageView {
                role: m.role,
                content: if m.content.len() == 0 && m.tool_calls is Some && !orphan {
                    None
                } else {
                    Some(m.content)
                },
                reasoning_content: if m.role == "assistant"@ {
                    Some(
                        match m.reasoning_content {
                            Some(r) => r,
                            None => Seq::empty(),
                        },
                    )
                } else {
                    None
                },
                name: m.name,
                tool_calls: match m.tool_calls {
                    Some(calls) => {
                        let matched = answered_calls(all, calls);
                        if matched.len() > 0 {
                            Some(matched)
                        } else {
                            None
                        }
                    },
                    None => None,
                },
                tool_call_id: m.tool_call_id,
            },
        )
    }
}

/// The request messages for the first `n` messages of the history `all`.
pub open spec fn api_list(all: Seq<MessageView>, n: int) -> Seq<ApiMessageView>
    decreases n,
{
    if n <= 0 {
        Seq::empty()
    } else {
        let rest = api_list(all, n - 1);
        match api_of(all, n - 1) {
            Some(a) => rest.push(a),
            None => rest,
        }
    }
}

/// The leading system message of a request.
pub open spec fn system_api_message(s: Seq<char>) -> ApiMessageView {
    ApiMessageView {
        role: "system"@,
        content: Some(s),
        reasoning_content: None,
        name: None,
        tool_calls: None,
        tool_call_id: None,
    }
}

/// The calls of `calls` that some tool message of `msgs` answers.
fn answered_calls_exec(msgs: &Vec<Message>, calls: &Vec<ToolCallValue>) -> (r: Vec<ToolCallValue>)
    ensures
        tool_calls_view(r@) == answered_calls(msgs_view(msgs@), tool_calls_view(calls@)),
{
    let ghost all = msgs_view(msgs@);
    let ghost cv = tool_calls_view(calls@);
    let mut r: Vec<ToolCallValue> = Vec::new();
    let mut j: usize = 0;
    while j < calls.len()
        invariant
            j <= calls.len(),
            all == msgs_view(msgs@),
            cv == tool_calls_view(calls@),
            tool_calls_view(r@) =~= answered_calls(all, cv.take(j as int)),
        decreases calls.len() - j,
    {
        proof {
            assert(cv.take(j + 1).drop_last() =~= cv.take(j as int));
            assert(cv.take(j + 1).last() == calls@[j as int]@);
        }
        if has_tool_result(msgs, &calls[j].id) {
            let c = calls[j].clone();
            let ghost old_r = r@;
            r.push(c);
            proof {
                assert(tool_calls_view(r@) =~= tool_calls_view(old_r).push(c@));
            }
        }
        j = j + 1;
    }
    proof {
        assert(cv.take(calls.len() as int) =~= cv);
    }
    r
}

/// The request message for the `i`-th message of `msgs`, if it is sent.
fn api_message_at(msgs: &Vec<Message>, i: usize) -> (r: Option<ApiMessage>)
    requires
        i < msgs.len(),
    ensures
        match r {
            Some(a) => api_of(msgs_view(msgs@), i as int) == Some(a@),
            None => api_of(msgs_view(msgs@), i as int) is None,
        },
{
    let ghost all = msgs_view(msgs@);
    let m = &msgs[i];
    proof {
        assert(all[i as int] == m@);
    }
    let orphan = match &m.tool_calls {
        Some(calls) => calls_all_orphan(msgs, calls),
        None => false,
    };
    let is_assistant = string_is(&m.role, "assistant");
    if is_assistant && orphan && m.content.as_str().is_empty() {
        return None;
    }
    if string_is(&m.role, "tool") {
        match &m.tool_call_id {
            Some(id) => {
                if !is_declared_in(msgs, i + 1, id, true) {
                    return None;
                }
            },
            None => {},
        }
    }
    let content = if m.content.as_str().is_empty() && m.tool_calls.is_some() && !orphan {
        None
    } else {
        Some(m.content.clone())
    };
    let reasoning_content = if is_assistant {
        match &m.reasoning_content {
            Some(r) => Some(r.clone()),
            None => Some(String::new()),
        }
    } else {
        None
    };
    let tool_calls = match &m.tool_calls {
        Some(calls) => {
            let matched = answered_calls_exec(msgs, calls);
            if matched.len() > 0 {
                Some(matched)
            } else {
                None
            }
        },
        None => None,
    };
    Some(
        ApiMessage {
            role: m.role.clone(),
            content,
            reasoning_content,
            name: clone_opt_string(&m.name),
            tool_calls,
            tool_call_id: clone_opt_string(&m.tool_call_id),
        },
    )
}

/// Builds the messages of a chat request from a history: an optional system prompt first,
/// then each message that is sent (orphan calls and results are left out), with
/// `reasoning_content` always present on assistant messages and only answered calls kept.
pub fn build_api_messages(messages: &Vec<Message>, system: Option<&str>) -> (r: Vec<ApiMessage>)
    ensures
        api_msgs_view(r@) == (match system {
            Some(s) => seq![system_api_message(s@)],
            None => Seq::<ApiMessageView>::empty(),
        }) + api_list(msgs_view(messages@), messages@.len() as int),
{
    let ghost all = msgs_view(messages@);
    let mut api: Vec<ApiMessage> = Vec::new();
    match system {
        Some(s) => {
            api.push(
                ApiMessage {
                    role: String::from_str("system"),
                    content: Some(s.to_owned()),
                    reasoning_content: None,
                    name: None,
                    tool_calls: None,
                    tool_call_id: None,
                },
            );
        },
        None => {},
    }
    let ghost head = api_msgs_view(api@);
    let mut i: usize = 0;
    while i < messages.len()
        invariant
            i <= messages.len(),
            all == msgs_view(messages@),
            api_msgs_view(api@) =~= head + api_list(all, i as int),
        decreases messages.len() - i,
    {
        let a = api_message_at(messages, i);
        match a {
            Some(x) => {
                let ghost old_api = api@;
                api.push(x);
                proof {
                    assert(api_msgs_view(api@) =~= api_msgs_view(old_api).push(x@));
                }
            },
            None => {},
        }
        i = i + 1;
    }
    api
}

proof fn lemma_answered_calls(all: Seq<MessageView>, calls: Seq<ToolCallView>)
    ensures
        forall|k: int|
            0 <= k < answered_calls(all, calls).len() ==> is_completed(
                all,
                (#[trigger] answered_calls(all, calls)[k]).id,
            ) && calls.contains(answered_calls(all, calls)[k]),
        forall|j: int|
            0 <= j < calls.len() && is_completed(all, (#[trigger] calls[j]).id) ==> answered_calls(
                all,
                calls,
            ).contains(calls[j]),
    decreases calls.len(),
{
    if calls.len() > 0 {
        let init = calls.drop_last();
        lemma_answered_calls(all, init);
        let rest = answered_calls(all, init);
        let r = answered_calls(all, calls);
        assert forall|k: int| 0 <= k < r.len() implies is_completed(all, (#[trigger] r[k]).id)
            && calls.contains(r[k]) by {
            if k < rest.len() {
                assert(r[k] == rest[k]);
                let j = choose|j: int| 0 <= j < init.len() && init[j] == rest[k];
                assert(calls[j] == init[j]);
            } else {
                assert(r[k] == calls.last());
                assert(calls[calls.len() - 1] == calls.last());
            }
        }
        assert forall|j: int| 0 <= j < calls.len() && is_completed(all, (#[trigger] calls[j]).id)
            implies r.contains(calls[j]) by {
            if j < calls.len() - 1 {
                assert(init[j] == calls[j]);
                let k = choose|k: int| 0 <= k < rest.len() && rest[k] == init[j];
                assert(r[k] == rest[k]);
            } else {
                assert(r[r.len() - 1] == calls[j]);
            }
        }
    }
}

proof fn lemma_api_list_from(all: Seq<MessageView>, n: int)
    ensures
        forall|j: int|
            0 <= j < api_list(all, n).len() ==> exists|i: int|
                0 <= i < n && api_of(all, i) == Some(#[trigger] api_list(all, n)[j]),
    decreases n,
{
    if n > 0 {
        lemma_api_list_from(all, n - 1);
        let rest = api_list(all, n - 1);
        let l = api_list(all, n);
        assert forall|j: int| 0 <= j < l.len() implies exists|i: int|
            0 <= i < n && api_of(all, i) == Some(#[trigger] l[j]) by {
            if j < rest.len() {
                assert(l[j] == rest[j]);
                let i = choose|i: int| 0 <= i < n - 1 && api_of(all, i) == Some(rest[j]);
                assert(api_of(all, i) == Some(l[j]));
            } else {
                assert(api_of(all, n - 1) == Some(l[j]));
            }
        }
    }
}

/// Only answered calls are sent, and every answered call is: each tool call of each request
/// message built from the history `all` is answered by some tool message of `all`, and it is
/// one of the calls of the history message it comes from; an assistant message that is sent
/// carries every one of its calls that is answered.
pub proof fn lemma_request_calls_answered(all: Seq<MessageView>)
    ensures
        forall|j: int, k: int|
            #![trigger api_list(all, all.len() as int)[j].tool_calls->0[k]]
            0 <= j < api_list(all, all.len() as int).len() && api_list(
                all,
                all.len() as int,
            )[j].tool_calls is Some && 0 <= k < api_list(all, all.len() as int)[j].tool_calls->0.len()
                ==> is_completed(all, api_list(all, all.len() as int)[j].tool_calls->0[k].id),
        forall|i: int, k: int|
            #![trigger api_of(all, i), all[i].tool_calls->0[k]]
            0 <= i < all.len() && api_of(all, i) is Some && all[i].tool_calls is Some && 0 <= k
                < all[i].tool_calls->0.len() && is_completed(all, all[i].tool_calls->0[k].id) ==> (
            api_of(all, i)->0.tool_calls matches Some(sent) && sent.contains(
                all[i].tool_calls->0[k],
            )),
        forall|i: int, k: int|
            #![trigger api_of(all, i)->0.tool_calls->0[k]]
            0 <= i < all.len() && api_of(all, i) is Some && api_of(all, i)->0.tool_calls is Some
                && 0 <= k < api_of(all, i)->0.tool_calls->0.len() ==> all[i].tool_calls is Some
                && all[i].tool_calls->0.contains(api_of(all, i)->0.tool_calls->0[k]),
{
    let l = api_list(all, all.len() as int);
    lemma_api_list_from(all, all.len() as int);
    assert forall|j: int, k: int|
        0 <= j < l.len() && l[j].tool_calls is Some && 0 <= k < l[j].tool_calls->0.len()
            implies is_completed(all, #[trigger] l[j].tool_calls->0[k].id) by {
        let i = choose|i: int| 0 <= i < all.len() && api_of(all, i) == Some(l[j]);
        let calls = all[i].tool_calls->0;
        lemma_answered_calls(all, calls);
        assert(l[j].tool_calls->0 == answered_calls(all, calls));
    }
    assert forall|i: int, k: int|
        0 <= i < all.len() && api_of(all, i) is Some && all[i].tool_calls is Some && 0 <= k
            < all[i].tool_calls->0.len() && is_completed(all, all[i].tool_calls->0[k].id) implies (
        api_of(all, i)->0.tool_calls matches Some(sent) && sent.contains(
            #[trigger] all[i].tool_calls->0[k],
        )) by {
        let calls = all[i].tool_calls->0;
        lemma_answered_calls(all, calls);
        assert(answered_calls(all, calls).contains(calls[k]));
        assert(answered_calls(all, calls).len() > 0);
    }
    assert forall|i: int, k: int|
        0 <= i < all.len() && api_of(all, i) is Some && api_of(all, i)->0.tool_calls is Some && 0
            <= k < api_of(all, i)->0.tool_calls->0.len() implies all[i].tool_calls is Some
            && all[i].tool_calls->0.contains(#[trigger] api_of(all, i)->0.tool_calls->0[k]) by {
        let calls = all[i].tool_calls->0;
        lemma_answered_calls(all, calls);
    }
}

} // verus!
