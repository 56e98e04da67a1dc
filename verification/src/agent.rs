//! The decisions of the agent loop: assembling streamed tool calls, the messages a round
//! leaves behind, and the texts the loop reports.
use vstd::prelude::*;

use crate::message::{
    clone_opt_string, opt_str_view, plain_view, tool_calls_view, Message, MessageView,
    ToolCallFunction, ToolCallValue, ToolCallView,
};
use crate::context::{join_path, path_join};
use crate::events::{AgentEvent, UsageCounts};
use crate::message::string_is;
use crate::text::{decimal, push_decimal, replace_all, replaced, str_chars, trim, trimmed};

verus! {

/// A tool call being assembled from streamed pieces.
pub struct PendingCall {
    /// The position the model gave the call.
    pub index: usize,
    pub id: Option<String>,
    pub name: Option<String>,
    /// The argument text received so far.
    pub arguments: String,
}

/// The value of a pending call.
pub struct PendingView {
    pub index: usize,
    pub id: Option<Seq<char>>,
    pub name: Option<Seq<char>>,
    pub arguments: Seq<char>,
}

impl View for PendingCall {
    type V = PendingView;

    open spec fn view(&self) -> PendingView {
        PendingView {
            index: self.index,
            id: opt_str_view(self.id),
            name: opt_str_view(self.name),
            arguments: self.arguments@,
        }
    }
}

pub open spec fn pending_views(s: Seq<PendingCall>) -> Seq<PendingView> {
    s.map_values(|c: PendingCall| c@)
}

/// The calls are ordered by strictly increasing index.
pub open spec fn sorted_by_index(s: Seq<PendingView>) -> bool {
    forall|i: int, j: int| 0 <= i < j < s.len() ==> #[trigger] s[i].index < #[trigger] s[j].index
}

/// The first position at or after `from` whose call has an index of at least `index`
/// (`s.len()` when there is none).
pub open spec fn first_at_least(s: Seq<PendingView>, index: usize, from: int) -> int
    decreases s.len() - from,
{
    if from < 0 || from >= s.len() {
        s.len() as int
    } else if s[from].index >= index {
        from
    } else {
        first_at_least(s, index, from + 1)
    }
}

/// A call with one more piece: a given id or name replaces the one it had, and the
/// argument text is appended.
pub open spec fn merged(c: PendingView, id: Option<Seq<char>>, name: Option<Seq<char>>, args: Seq<
    char,
>) -> PendingView {
    PendingView {
        index: c.index,
        id: if id is Some {
            id
        } else {
            c.id
        },
        name: if name is Some {
            name
        } else {
            c.name
        },
        arguments: c.arguments + args,
    }
}

/// The calls after a piece for the call `index` arrived: it is merged into the call with
/// that index, or starts a new call in its place in the order.
pub open spec fn absorbed(
    s: Seq<PendingView>,
    index: usize,
    id: Option<Seq<char>>,
    name: Option<Seq<char>>,
    args: Seq<char>,
) -> Seq<PendingView> {
    let p = first_at_least(s, index, 0);
    if p < s.len() && s[p].index == index {
        s.update(p, merged(s[p], id, name, args))
    } else {
        s.insert(p, PendingView { index, id, name, arguments: args })
    }
}

proof fn lemma_first_at_least(s: Seq<PendingView>, index: usize, from: int, i: int)
    requires
        0 <= from <= i <= s.len(),
        forall|k: int| from <= k < i ==> #[trigger] s[k].index < index,
        i == s.len() || s[i].index >= index,
    ensures
        first_at_least(s, index, from) == i,
    decreases i - from,
{
    if from < i {
        lemma_first_at_least(s, index, from + 1, i);
    }
}

proof fn lemma_first_at_least_props(s: Seq<PendingView>, index: usize, from: int)
    requires
        0 <= from <= s.len(),
    ensures
        from <= first_at_least(s, index, from) <= s.len(),
        forall|k: int| from <= k < first_at_least(s, index, from) ==> #[trigger] s[k].index < index,
        first_at_least(s, index, from) < s.len() ==> s[first_at_least(s, index, from)].index >= index,
    decreases s.len() - from,
{
    if from < s.len() && s[from].index < index {
        lemma_first_at_least_props(s, index, from + 1);
    }
}

/// A piece for a call that is already there extends its arguments and keeps the number of
/// calls; a piece for a new index adds one call.
pub proof fn lemma_absorb_pieces(
    s: Seq<PendingView>,
    index: usize,
    id: Option<Seq<char>>,
    name: Option<Seq<char>>,
    args: Seq<char>,
)
    requires
        sorted_by_index(s),
    ensures
        (exists|k: int| 0 <= k < s.len() && s[k].index == index) ==> ({
            let p = first_at_least(s, index, 0);
            &&& absorbed(s, index, id, name, args).len() == s.len()
            &&& absorbed(s, index, id, name, args)[p].arguments == s[p].arguments + args
        }),
        !(exists|k: int| 0 <= k < s.len() && s[k].index == index) ==> absorbed(
            s,
            index,
            id,
            name,
            args,
        ).len() == s.len() + 1,
{
    lemma_first_at_least_props(s, index, 0);
    let i = first_at_least(s, index, 0);
    if exists|k: int| 0 <= k < s.len() && s[k].index == index {
        let k = choose|k: int| 0 <= k < s.len() && s[k].index == index;
        if k < i {
        } else if k > i {
            assert(s[i].index < s[k].index);
        }
    }
}

/// The default id of a call of round `round` that came without one.
pub open spec fn default_call_id(round: usize) -> Seq<char> {
    "call_"@ + decimal(round as nat)
}

/// The tool call a pending call becomes in round `round`: a missing id becomes
/// "call_{round}" and a missing name the empty name.
pub open spec fn call_of(c: PendingView, round: usize) -> ToolCallView {
    ToolCallView {
        id: match c.id {
            Some(i) => i,
            None => default_call_id(round),
        },
        call_type: "function"@,
        name: match c.name {
            Some(n) => n,
            None => Seq::empty(),
        },
        arguments: c.arguments,
    }
}

/// The tool calls of a model response, assembled from the pieces streamed for each call.
pub struct ToolCallAccumulator {
    calls: Vec<PendingCall>,
}

impl View for ToolCallAccumulator {
    type V = Seq<PendingView>;

    closed spec fn view(&self) -> Seq<PendingView> {
        pending_views(self.calls@)
    }
}

/// "call_{round}".
pub fn default_id(round: usize) -> (r: String)
    ensures
        r@ == default_call_id(round),
{
    let mut r = String::from_str("call_");
    push_decimal(&mut r, round);
    r
}

impl ToolCallAccumulator {
    /// Whether the calls are ordered by index.
    pub closed spec fn wf(&self) -> bool {
        sorted_by_index(self@)
    }

    /// No call yet.
    pub fn new() -> (a: Self)
        ensures
            a.wf(),
            a@ == Seq::<PendingView>::empty(),
    {
        let a = ToolCallAccumulator { calls: Vec::new() };
        proof {
            assert(pending_views(a.calls@) =~= Seq::<PendingView>::empty());
        }
        a
    }

    /// Whether no call has arrived.
    pub fn is_empty(&self) -> (b: bool)
        ensures
            b == (self@.len() == 0),
    {
        self.calls.len() == 0
    }

    /// Takes one streamed piece of the call `index`.
    pub fn absorb(&mut self, index: usize, id: Option<String>, name: Option<String>, arguments: &str)
        requires
            old(self).wf(),
        ensures
            final(self).wf(),
            final(self)@ == absorbed(
                old(self)@,
                index,
                opt_str_view(id),
                opt_str_view(name),
                arguments@,
            ),
    {
        let ghost s = self@;
        let mut i: usize = 0;
        while i < self.calls.len() && self.calls[i].index < index
            invariant
                i <= self.calls.len(),
                s == pending_views(self.calls@),
                sorted_by_index(s),
                forall|k: int| 0 <= k < i ==> #[trigger] s[k].index < index,
            decreases self.calls.len() - i,
        {
            proof {
                assert(s[i as int] == self.calls@[i as int]@);
            }
            i = i + 1;
        }
        proof {
            if i < self.calls.len() {
                assert(s[i as int] == self.calls@[i as int]@);
            }
            lemma_first_at_least(s, index, 0, i as int);
        }
        if i < self.calls.len() && self.calls[i].index == index {
            let new_id = match id {
                Some(x) => Some(x),
                None => clone_opt_string(&self.calls[i].id),
            };
            let new_name = match name {
                Some(x) => Some(x),
                None => clone_opt_string(&self.calls[i].name),
            };
            let mut args = self.calls[i].arguments.clone();
            args.append(arguments);
            let ghost before = self.calls@;
            self.calls[i] = PendingCall { index, id: new_id, name: new_name, arguments: args };
            proof {
                assert(pending_views(self.calls@) =~= s.update(
                    i as int,
                    merged(s[i as int], opt_str_view(id), opt_str_view(name), arguments@),
                ));
            }
        } else {
            let ghost before = self.calls@;
            self.calls.insert(i, PendingCall { index, id, name, arguments: arguments.to_owned() });
            proof {
                let nv = PendingView {
                    index,
                    id: opt_str_view(id),
                    name: opt_str_view(name),
                    arguments: arguments@,
                };
                assert(pending_views(self.calls@) =~= s.insert(i as int, nv));
                let t = s.insert(i as int, nv);
                assert forall|a: int, b: int| 0 <= a < b < t.len() implies #[trigger] t[a].index
                    < #[trigger] t[b].index by {
                    if b < i {
                    } else if a < i && b == i {
                    } else if a < i {
                        assert(t[b] == s[b - 1]);
                    } else if a == i {
                        assert(t[b] == s[b - 1]);
                        assert(s[i as int].index >= index);
                        if b - 1 > i {
                            assert(s[i as int].index < s[b - 1].index);
                        }
                    } else {
                        assert(t[a] == s[a - 1]);
                        assert(t[b] == s[b - 1]);
                    }
                }
            }
        }
    }

    /// The calls as assembled so far, ordered by index.
    pub fn pending(&self) -> (r: &Vec<PendingCall>)
        ensures
            pending_views(r@) == self@,
    {
        &self.calls
    }

    /// The assembled tool calls of round `round`, ordered by index.
    pub fn tool_calls(&self, round: usize) -> (r: Vec<ToolCallValue>)
        ensures
            tool_calls_view(r@) == self@.map_values(|c: PendingView| call_of(c, round)),
    {
        let mut r: Vec<ToolCallValue> = Vec::new();
        let mut i: usize = 0;
        while i < self.calls.len()
            invariant
                i <= self.calls.len(),
                tool_calls_view(r@) == self@.take(i as int).map_values(
                    |c: PendingView| call_of(c, round),
                ),
            decreases self.calls.len() - i,
        {
            let c = &self.calls[i];
            let id = match &c.id {
                Some(x) => x.clone(),
                None => default_id(round),
            };
            let name = match &c.name {
                Some(x) => x.clone(),
                None => String::new(),
            };
            let v = ToolCallValue {
                id,
                call_type: String::from_str("function"),
                function: ToolCallFunction { name, arguments: c.arguments.clone() },
            };
            let ghost old_r = r@;
            r.push(v);
            proof {
                assert(self@[i as int] == self.calls@[i as int]@);
                assert(tool_calls_view(r@) =~= tool_calls_view(old_r).push(v@));
                assert(self@.take(i + 1).map_values(|c: PendingView| call_of(c, round))
                    =~= self@.take(i as int).map_values(|c: PendingView| call_of(c, round)).push(
                    call_of(self@[i as int], round),
                ));
            }
            i = i + 1;
        }
        proof {
            assert(self@.take(self.calls.len() as int) =~= self@);
        }
        r
    }
}

/// The message a finished model response leaves in the history. Without tool calls, an
/// assistant message with the text (and the reasoning, when there is any), or nothing when
/// both are empty; with tool calls, an assistant message carrying them and the text.
pub open spec fn round_message_view(
    text: Seq<char>,
    reasoning: Seq<char>,
    calls: Option<Seq<ToolCallView>>,
) -> Option<MessageView> {
    let r = if reasoning.len() > 0 {
        Some(reasoning)
    } else {
        None
    };
    match calls {
        None => if text.len() == 0 && reasoning.len() == 0 {
            None
        } else {
            Some(
                MessageView {
                    role: "assistant"@,
                    content: text,
                    name: None,
                    reasoning_content: r,
                    tool_calls: None,
                    tool_call_id: None,
                },
            )
        },
        Some(cs) => Some(
            MessageView {
                role: "assistant"@,
                content: text,
                name: None,
                reasoning_content: r,
                tool_calls: Some(cs),
                tool_call_id: None,
            },
        ),
    }
}

/// The message a finished model response leaves in the history (see `round_message_view`);
/// `calls` is `None` when the response asked for no tool.
pub fn round_message(text: String, reasoning: String, calls: Option<Vec<ToolCallValue>>) -> (r:
    Option<Message>)
    ensures
        match r {
            Some(m) => Some(m@) == round_message_view(
                text@,
                reasoning@,
                match calls {
                    Some(cs) => Some(tool_calls_view(cs@)),
                    None => None,
                },
            ),
            None => round_message_view(
                text@,
                reasoning@,
                match calls {
                    Some(cs) => Some(tool_calls_view(cs@)),
                    None => None,
                },
            ) is None,
        },
{
    let has_reasoning = !reasoning.as_str().is_empty();
    let r = if has_reasoning {
        Some(reasoning)
    } else {
        None
    };
    match calls {
        None => {
            if text.as_str().is_empty() && !has_reasoning {
                None
            } else {
                Some(
                    Message {
                        role: String::from_str("assistant"),
                        content: text,
                        name: None,
                        reasoning_content: r,
                        tool_calls: None,
                        tool_call_id: None,
                    },
                )
            }
        },
        Some(cs) => Some(
            Message {
                role: String::from_str("assistant"),
                content: text,
                name: None,
                reasoning_content: r,
                tool_calls: Some(cs),
                tool_call_id: None,
            },
        ),
    }
}

/// The tool result reported when the arguments of the call `name` are no valid JSON.
pub fn args_error_text(name: &str, error: &str) -> (r: String)
    ensures
        r@ == "解析 "@ + name@ + " 参数失败: "@ + error@,
{
    let mut r = String::from_str("解析 ");
    r.append(name);
    r.append(" 参数失败: ");
    r.append(error);
    r
}

/// The tool result reported when the tool `name` failed.
pub fn tool_error_text(name: &str, error: &str) -> (r: String)
    ensures
        r@ == name@ + " 执行失败: "@ + error@,
{
    let mut r = name.to_owned();
    r.append(" 执行失败: ");
    r.append(error);
    r
}

/// The question put to the model after a round, while the context agent waits for
/// `condition`.
pub fn wait_check_prompt(condition: &str) -> (r: String)
    ensures
        r@ == "判断条件是否已经完成："@ + condition@ + "\n只输出 y 或 n。不开思考"@,
{
    let mut r = String::from_str("判断条件是否已经完成：");
    r.append(condition);
    r.append("\n只输出 y 或 n。不开思考");
    r
}

/// Whether the model's answer to a wait check says yes: trimmed, it is "y" in either case.
pub fn condition_met(answer: &str) -> (b: bool)
    ensures
        b == (trimmed(answer@) == "y"@ || trimmed(answer@) == "Y"@),
{
    let t = trim(answer);
    let tc = str_chars(t.as_str());
    proof {
        reveal_strlit("y");
        reveal_strlit("Y");
        assert("y"@ =~= seq!['y']);
        assert("Y"@ =~= seq!['Y']);
    }
    if tc.len() == 1 {
        proof {
            assert(tc@ =~= seq![tc@[0]]);
        }
        tc[0] == 'y' || tc[0] == 'Y'
    } else {
        false
    }
}

/// An injected message with the context file's path: an "orch" message gets every
/// "CONTEXT.md" in its content replaced by the path of CONTEXT.md in the session directory,
/// when there is one; every other message stays as it is.
pub fn inject_context_path(msg: Message, session_dir: Option<&str>) -> (r: Message)
    ensures
        match (opt_str_view(msg.name), session_dir) {
            (Some(n), Some(d)) => if n == "orch"@ {
                r@ == MessageView {
                    content: replaced(
                        msg.content@,
                        "CONTEXT.md"@,
                        path_join(d@, "CONTEXT.md"@),
                    ),
                    ..msg@
                }
            } else {
                r == msg
            },
            _ => r == msg,
        },
{
    let is_orch = match &msg.name {
        Some(n) => string_is(n, "orch"),
        None => false,
    };
    match session_dir {
        Some(d) => {
            if is_orch {
                let path = join_path(d, "CONTEXT.md");
                proof {
                    reveal_strlit("CONTEXT.md");
                }
                let content = replace_all(msg.content.as_str(), "CONTEXT.md", path.as_str());
                Message { content, ..msg }
            } else {
                msg
            }
        },
        None => msg,
    }
}

/// Whether a chat request starts a new session: it names none, or an empty one.
pub fn is_new_session(session_id: &Option<String>) -> (b: bool)
    ensures
        b == match session_id {
            Some(s) => s@.len() == 0,
            None => true,
        },
{
    match session_id {
        Some(s) => s.as_str().is_empty(),
        None => true,
    }
}

/// The messages an agent run starts from: SILENCES.md as a system message named by its
/// path, when it could be read, then the stored history.
pub fn context_messages(silences_md: Option<String>, silences_path: String, history: Vec<Message>) -> (r:
    Vec<Message>)
    ensures
        match silences_md {
            Some(s) => r@.len() == history@.len() + 1 && r@[0]@ == plain_view(
                "system"@,
                s@,
                Some(silences_path@),
            ) && r@.skip(1) == history@,
            None => r@ == history@,
        },
{
    let mut r: Vec<Message> = Vec::new();
    match silences_md {
        Some(s) => {
            r.push(
                Message {
                    role: String::from_str("system"),
                    content: s,
                    name: Some(silences_path),
                    reasoning_content: None,
                    tool_calls: None,
                    tool_call_id: None,
                },
            );
        },
        None => {},
    }
    let ghost start = r@;
    let mut h = history;
    r.append(&mut h);
    proof {
        assert(r@.skip(start.len() as int) =~= history@);
    }
    r
}

/// What a blocking run gathers from the events of an agent run: the reply text, the last
/// usage and the last error.
pub struct BlockingRun {
    pub reply: String,
    pub usage: Option<UsageCounts>,
    pub error: Option<String>,
}

/// The result of a blocking run.
pub struct AgentOutput {
    /// The history at the end of the run.
    pub messages: Vec<Message>,
    /// The usage of the whole run.
    pub total_usage: Option<UsageCounts>,
    /// The assistant's text reply.
    pub assistant_reply: String,
}

impl BlockingRun {
    /// Nothing gathered yet.
    pub fn new() -> (b: Self)
        ensures
            b.reply@.len() == 0,
            b.usage is None,
            b.error is None,
    {
        BlockingRun { reply: String::new(), usage: None, error: None }
    }

    /// Takes one event: text extends the reply, a usage or an error replaces the one before,
    /// and every other event is ignored.
    pub fn absorb(&mut self, e: AgentEvent)
        ensures
            match e {
                AgentEvent::Text(t) => final(self).reply@ == old(self).reply@ + t@
                    && final(self).usage == old(self).usage && final(self).error == old(
                    self,
                ).error,
                AgentEvent::Usage(u) => final(self).usage == Some(u) && final(self).reply
                    == old(self).reply && final(self).error == old(self).error,
                AgentEvent::Error(m) => final(self).error == Some(m) && final(self).reply
                    == old(self).reply && final(self).usage == old(self).usage,
                _ => *final(self) == *old(self),
            },
    {
        match e {
            AgentEvent::Text(t) => self.reply.append(t.as_str()),
            AgentEvent::Usage(u) => self.usage = Some(u),
            AgentEvent::Error(m) => self.error = Some(m),
            _ => {},
        }
    }

    /// The outcome of the run once its events are over: an error "agent 错误: {e}" when one
    /// came, else the reply, the usage and the final history.
    pub fn finish(self, messages: Vec<Message>) -> (r: Result<AgentOutput, String>)
        ensures
            match self.error {
                Some(e) => r is Err && r->Err_0@ == "agent 错误: "@ + e@,
                None => r matches Ok(o) && o.messages == messages && o.total_usage == self.usage
                    && o.assistant_reply == self.reply,
            },
    {
        match self.error {
            Some(e) => {
                let mut m = String::from_str("agent 错误: ");
                m.append(e.as_str());
                Err(m)
            },
            None => Ok(
                AgentOutput { messages, total_usage: self.usage, assistant_reply: self.reply },
            ),
        }
    }
}

/// The JSON text `serde_json` writes for an object whose fields are the given strings.
pub uninterp spec fn json_object_of(fields: Seq<(Seq<char>, Seq<char>)>) -> Seq<char>;

pub open spec fn fields_view(v: Seq<(String, String)>) -> Seq<(Seq<char>, Seq<char>)> {
    v.map_values(|f: (String, String)| (f.0@, f.1@))
}

/// Writes a JSON object of string fields with `serde_json` (a `serde_json::Map` of
/// `Value::String`s, written by `Value::to_string`); the contract names the text.
#[verifier::external_body]
fn json_object(fields: &Vec<(String, String)>) -> (r: String)
    ensures
        r@ == json_object_of(fields_view(fields@)),
{
    let mut m = serde_json::Map::new();
    for (k, v) in fields.iter() {
        m.insert(k.clone(), serde_json::Value::String(v.clone()));
    }
    serde_json::Value::Object(m).to_string()
}

/// The first `n` characters of `s` (all of them when it is shorter).
pub open spec fn prefix_chars(s: Seq<char>, n: nat) -> Seq<char> {
    if s.len() <= n {
        s
    } else {
        s.take(n as int)
    }
}

/// The id of the task that wraps a user message: "处理用户消息：" and the message's first
/// ten characters.
pub open spec fn auto_task_id_of(message: Seq<char>) -> Seq<char> {
    "处理用户消息："@ + prefix_chars(message, 10)
}

/// The id of the task that wraps a user message (see `auto_task_id_of`).
pub fn auto_task_id(message: &str) -> (r: String)
    ensures
        r@ == auto_task_id_of(message@),
{
    let cs = str_chars(message);
    let n = if cs.len() <= 10 {
        cs.len()
    } else {
        10
    };
    let mut head: Vec<char> = Vec::new();
    let mut i: usize = 0;
    while i < n
        invariant
            i <= n <= cs.len(),
            head@ == cs@.take(i as int),
        decreases n - i,
    {
        head.push(cs[i]);
        proof {
            assert(cs@.take(i + 1) =~= cs@.take(i as int).push(cs@[i as int]));
        }
        i = i + 1;
    }
    proof {
        if cs.len() <= 10 {
            assert(cs@.take(n as int) =~= cs@);
        }
    }
    let mut r = String::from_str("处理用户消息：");
    let h = crate::text::string_from_chars(&head);
    r.append(h.as_str());
    r
}

/// The value of the message that wraps `message` into a task.
pub open spec fn auto_task_view(message: Seq<char>) -> MessageView {
    let id = auto_task_id_of(message);
    MessageView {
        role: "assistant"@,
        content: Seq::empty(),
        name: None,
        reasoning_content: None,
        tool_calls: Some(
            seq![
                ToolCallView {
                    id: "call_add"@,
                    call_type: "function"@,
                    name: "add_task"@,
                    arguments: json_object_of(seq![("id"@, id), ("description"@, message)]),
                },
                ToolCallView {
                    id: "call_start"@,
                    call_type: "function"@,
                    name: "start_task"@,
                    arguments: json_object_of(seq![("task_id"@, id), ("description"@, message)]),
                },
            ],
        ),
        tool_call_id: None,
    }
}

/// The assistant message that wraps a user message into a task when no task is active: two
/// calls, `add_task` (id "call_add", arguments {"id", "description"}) and `start_task` (id
/// "call_start", arguments {"task_id", "description"}), the description being the message;
/// with the task id.
pub fn auto_task_message(message: &str) -> (r: (Message, String))
    ensures
        r.1@ == auto_task_id_of(message@),
        r.0@ == auto_task_view(message@),
{
    let task_id = auto_task_id(message);
    let mut add_fields: Vec<(String, String)> = Vec::new();
    add_fields.push((String::from_str("id"), task_id.clone()));
    add_fields.push((String::from_str("description"), message.to_owned()));
    let mut start_fields: Vec<(String, String)> = Vec::new();
    start_fields.push((String::from_str("task_id"), task_id.clone()));
    start_fields.push((String::from_str("description"), message.to_owned()));
    proof {
        assert(fields_view(add_fields@) =~= seq![("id"@, task_id@), ("description"@, message@)]);
        assert(fields_view(start_fields@) =~= seq![("task_id"@, task_id@), ("description"@, message@)]);
    }
    let add_args = json_object(&add_fields);
    let start_args = json_object(&start_fields);
    let mut calls: Vec<ToolCallValue> = Vec::new();
    calls.push(
        ToolCallValue {
            id: String::from_str("call_add"),
            call_type: String::from_str("function"),
            function: ToolCallFunction { name: String::from_str("add_task"), arguments: add_args },
        },
    );
    calls.push(
        ToolCallValue {
            id: String::from_str("call_start"),
            call_type: String::from_str("function"),
            function: ToolCallFunction { name: String::from_str("start_task"), arguments: start_args },
        },
    );
    let m = Message::new_tool_call(calls);
    proof {
        assert(tool_calls_view(calls@) =~= seq![calls@[0]@, calls@[1]@]);
    }
    (m, task_id)
}

/// A session's context ready for an agent run.
pub struct PreparedContext {
    pub session_id: String,
    pub messages: Vec<Message>,
    pub session_dir: String,
    /// Whether the session was created for this request.
    pub is_new: bool,
}

} // verus!
