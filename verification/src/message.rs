//! Conversation messages, tool calls and the front-end view of a history.
use vstd::prelude::*;

verus! {

/// The `function` part of a tool call: the tool's name and its JSON arguments.
pub struct ToolCallFunction {
    pub name: String,
    /// Arguments as a JSON text.
    pub arguments: String,
}

/// A tool call issued by the assistant.
pub struct ToolCallValue {
    pub id: String,
    pub call_type: String,
    pub function: ToolCallFunction,
}

/// One message of a conversation.
pub struct Message {
    /// "system" | "user" | "assistant" | "tool"
    pub role: String,
    pub content: String,
    /// Marks who sent a user message ("user" for the person, "orch" for the orchestrator).
    pub name: Option<String>,
    pub reasoning_content: Option<String>,
    /// Tool calls of an assistant message.
    pub tool_calls: Option<Vec<ToolCallValue>>,
    /// The call that a tool message answers.
    pub tool_call_id: Option<String>,
}

/// Mathematical value of a tool call.
pub struct ToolCallView {
    pub id: Seq<char>,
    pub call_type: Seq<char>,
    pub name: Seq<char>,
    pub arguments: Seq<char>,
}

/// Mathematical value of a message.
pub struct MessageView {
    pub role: Seq<char>,
    pub content: Seq<char>,
    pub name: Option<Seq<char>>,
    pub reasoning_content: Option<Seq<char>>,
    pub tool_calls: Option<Seq<ToolCallView>>,
    pub tool_call_id: Option<Seq<char>>,
}

pub open spec fn opt_str_view(o: Option<String>) -> Option<Seq<char>> {
    match o {
        Some(s) => Some(s@),
        None => None,
    }
}

pub open spec fn tool_calls_view(s: Seq<ToolCallValue>) -> Seq<ToolCallView> {
    s.map_values(|t: ToolCallValue| t@)
}

pub open spec fn opt_tool_calls_view(o: Option<Vec<ToolCallValue>>) -> Option<Seq<ToolCallView>> {
    match o {
        Some(v) => Some(tool_calls_view(v@)),
        None => None,
    }
}

pub open spec fn msgs_view(s: Seq<Message>) -> Seq<MessageView> {
    s.map_values(|m: Message| m@)
}

impl View for ToolCallValue {
    type V = ToolCallView;

    open spec fn view(&self) -> ToolCallView {
        ToolCallView {
            id: self.id@,
            call_type: self.call_type@,
            name: self.function.name@,
            arguments: self.function.arguments@,
        }
    }
}

impl View for Message {
    type V = MessageView;

    open spec fn view(&self) -> MessageView {
        MessageView {
            role: self.role@,
            content: self.content@,
            name: opt_str_view(self.name),
            reasoning_content: opt_str_view(self.reasoning_content),
            tool_calls: opt_tool_calls_view(self.tool_calls),
            tool_call_id: opt_str_view(self.tool_call_id),
        }
    }
}

/// Copies an optional string.
pub fn clone_opt_string(o: &Option<String>) -> (r: Option<String>)
    ensures
        r == *o,
{
    match o {
        Some(s) => Some(s.clone()),
        None => None,
    }
}

impl Clone for ToolCallFunction {
    fn clone(&self) -> (res: Self)
        ensures
            res == *self,
    {
        ToolCallFunction { name: self.name.clone(), arguments: self.arguments.clone() }
    }
}

impl Clone for ToolCallValue {
    fn clone(&self) -> (res: Self)
        ensures
            res@ == self@,
    {
        ToolCallValue {
            id: self.id.clone(),
            call_type: self.call_type.clone(),
            function: self.function.clone(),
        }
    }
}

/// Copies a list of tool calls.
pub fn clone_tool_calls(v: &Vec<ToolCallValue>) -> (r: Vec<ToolCallValue>)
    ensures
        tool_calls_view(r@) == tool_calls_view(v@),
{
    let mut r: Vec<ToolCallValue> = Vec::new();
    let mut i: usize = 0;
    while i < v.len()
        invariant
            i <= v.len(),
            tool_calls_view(r@) =~= tool_calls_view(v@.take(i as int)),
        decreases v.len() - i,
    {
        let c = v[i].clone();
        let ghost old_r = r@;
        r.push(c);
        proof {
            assert(v@.take(i + 1) =~= v@.take(i as int).push(v@[i as int]));
            assert(tool_calls_view(r@) =~= tool_calls_view(old_r).push(c@));
            assert(tool_calls_view(v@.take(i + 1)) =~= tool_calls_view(v@.take(i as int)).push(
                v@[i as int]@,
            ));
        }
        i = i + 1;
    }
    proof {
        assert(v@.take(v.len() as int) =~= v@);
    }
    r
}

impl Clone for Message {
    fn clone(&self) -> (res: Self)
        ensures
            res@ == self@,
    {
        let tool_calls = match &self.tool_calls {
            Some(v) => Some(clone_tool_calls(v)),
            None => None,
        };
        Message {
            role: self.role.clone(),
            content: self.content.clone(),
            name: clone_opt_string(&self.name),
            reasoning_content: clone_opt_string(&self.reasoning_content),
            tool_calls,
            tool_call_id: clone_opt_string(&self.tool_call_id),
        }
    }
}

impl Default for Message {
    fn default() -> (m: Self)
        ensures
            m.role@ == Seq::<char>::empty(),
            m.content@ == Seq::<char>::empty(),
            m.name is None,
            m.reasoning_content is None,
            m.tool_calls is None,
            m.tool_call_id is None,
    {
        Message {
            role: String::new(),
            content: String::new(),
            name: None,
            reasoning_content: None,
            tool_calls: None,
            tool_call_id: None,
        }
    }
}

impl Message {
    /// A plain message with the given role and content.
    pub fn new(role: &str, content: &str) -> (m: Self)
        ensures
            m.role@ == role@,
            m.content@ == content@,
            m.name is None,
            m.reasoning_content is None,
            m.tool_calls is None,
            m.tool_call_id is None,
    {
        Message {
            role: role.to_owned(),
            content: content.to_owned(),
            name: None,
            reasoning_content: None,
            tool_calls: None,
            tool_call_id: None,
        }
    }

    /// A user message that carries the sender's name.
    pub fn new_user(name: &str, content: &str) -> (m: Self)
        ensures
            m.role@ == "user"@,
            m.content@ == content@,
            opt_str_view(m.name) == Some(name@),
            m.reasoning_content is None,
            m.tool_calls is None,
            m.tool_call_id is None,
    {
        Message {
            role: String::from_str("user"),
            content: content.to_owned(),
            name: Some(name.to_owned()),
            reasoning_content: None,
            tool_calls: None,
            tool_call_id: None,
        }
    }

    /// An assistant message that carries tool calls and no text.
    pub fn new_tool_call(tool_calls: Vec<ToolCallValue>) -> (m: Self)
        ensures
            m.role@ == "assistant"@,
            m.content@ == Seq::<char>::empty(),
            m.name is None,
            m.reasoning_content is None,
            m.tool_calls == Some(tool_calls),
            m.tool_call_id is None,
    {
        Message {
            role: String::from_str("assistant"),
            content: String::new(),
            name: None,
            reasoning_content: None,
            tool_calls: Some(tool_calls),
            tool_call_id: None,
        }
    }

    /// A tool message answering the call `tool_call_id`.
    pub fn new_tool_result(tool_call_id: &str, content: &str) -> (m: Self)
        ensures
            m.role@ == "tool"@,
            m.content@ == content@,
            m.name is None,
            m.reasoning_content is None,
            m.tool_calls is None,
            opt_str_view(m.tool_call_id) == Some(tool_call_id@),
    {
        Message {
            role: String::from_str("tool"),
            content: content.to_owned(),
            name: None,
            reasoning_content: None,
            tool_calls: None,
            tool_call_id: Some(tool_call_id.to_owned()),
        }
    }
}

/// The value of a message with only a role, a content and possibly a name.
pub open spec fn plain_view(role: Seq<char>, content: Seq<char>, name: Option<Seq<char>>) -> MessageView {
    MessageView {
        role,
        content,
        name,
        reasoning_content: None,
        tool_calls: None,
        tool_call_id: None,
    }
}

/// Whether a string is equal to a literal.
pub fn string_is(s: &String, lit: &str) -> (b: bool)
    ensures
        b == (s@ == lit@),
{
    let t = String::from_str(lit);
    *s == t
}

/// A tool call as the front end renders it: its result is embedded.
pub struct ViewToolCall {
    pub name: String,
    pub args: String,
    pub result: Option<String>,
}

/// A message as the front end renders it (tool messages are folded into their calls).
pub struct ViewMessage {
    pub role: String,
    pub content: String,
    pub reasoning_content: Option<String>,
    pub tool_calls: Option<Vec<ViewToolCall>>,
}

pub struct ViewToolCallView {
    pub name: Seq<char>,
    pub args: Seq<char>,
    pub result: Option<Seq<char>>,
}

pub struct ViewMessageView {
    pub role: Seq<char>,
    pub content: Seq<char>,
    pub reasoning_content: Option<Seq<char>>,
    pub tool_calls: Option<Seq<ViewToolCallView>>,
}

impl View for ViewToolCall {
    type V = ViewToolCallView;

    open spec fn view(&self) -> ViewToolCallView {
        ViewToolCallView { name: self.name@, args: self.args@, result: opt_str_view(self.result) }
    }
}

pub open spec fn view_calls_view(s: Seq<ViewToolCall>) -> Seq<ViewToolCallView> {
    s.map_values(|t: ViewToolCall| t@)
}

impl View for ViewMessage {
    type V = ViewMessageView;

    open spec fn view(&self) -> ViewMessageView {
        ViewMessageView {
            role: self.role@,
            content: self.content@,
            reasoning_content: opt_str_view(self.reasoning_content),
            tool_calls: match self.tool_calls {
                Some(v) => Some(view_calls_view(v@)),
                None => None,
            },
        }
    }
}

pub open spec fn view_msgs_view(s: Seq<ViewMessage>) -> Seq<ViewMessageView> {
    s.map_values(|m: ViewMessage| m@)
}

/// The content of the last tool message of `ms` that answers the call `id`.
pub open spec fn last_result(ms: Seq<MessageView>, id: Seq<char>) -> Option<Seq<char>>
    decreases ms.len(),
{
    if ms.len() == 0 {
        None
    } else {
        let m = ms.last();
        if m.role == "tool"@ && m.tool_call_id == Some(id) {
            Some(m.content)
        } else {
            last_result(ms.drop_last(), id)
        }
    }
}

/// The rendered form of one tool call, given the whole history.
pub open spec fn view_call(all: Seq<MessageView>, tc: ToolCallView) -> ViewToolCallView {
    ViewToolCallView { name: tc.name, args: tc.arguments, result: last_result(all, tc.id) }
}

/// The rendered form of one message, given the whole history.
pub open spec fn view_of(all: Seq<MessageView>, m: MessageView) -> ViewMessageView {
    ViewMessageView {
        role: m.role,
        content: m.content,
        reasoning_content: m.reasoning_content,
        tool_calls: match m.tool_calls {
            Some(s) => Some(s.map_values(|t: ToolCallView| view_call(all, t))),
            None => None,
        },
    }
}

/// The rendered form of the messages `ms` of the history `all`: tool messages are dropped,
/// every other message keeps its place, and each tool call carries its result.
pub open spec fn view_list(all: Seq<MessageView>, ms: Seq<MessageView>) -> Seq<ViewMessageView>
    decreases ms.len(),
{
    if ms.len() == 0 {
        Seq::empty()
    } else {
        let rest = view_list(all, ms.drop_last());
        if ms.last().role == "tool"@ {
            rest
        } else {
            rest.push(view_of(all, ms.last()))
        }
    }
}

/// Finds the content of the last tool message answering the call `id`.
pub fn find_last_result(msgs: &Vec<Message>, id: &String) -> (r: Option<String>)
    ensures
        opt_str_view(r) == last_result(msgs_view(msgs@), id@),
{
    let ghost all = msgs_view(msgs@);
    let mut j: usize = msgs.len();
    proof {
        assert(all.take(j as int) =~= all);
    }
    while j > 0
        invariant
            j <= msgs.len(),
            all == msgs_view(msgs@),
            last_result(all, id@) == last_result(all.take(j as int), id@),
        decreases j,
    {
        let m = &msgs[j - 1];
        proof {
            assert(all.take(j as int).last() == m@);
            assert(all.take(j as int).drop_last() =~= all.take(j - 1));
        }
        if string_is(&m.role, "tool") {
            match &m.tool_call_id {
                Some(tid) => {
                    if *tid == *id {
                        return Some(m.content.clone());
                    }
                },
                None => {},
            }
        }
        j = j - 1;
    }
    None
}

/// Renders one tool call of the history `msgs`.
fn render_call(msgs: &Vec<Message>, tc: &ToolCallValue) -> (r: ViewToolCall)
    ensures
        r@ == view_call(msgs_view(msgs@), tc@),
{
    ViewToolCall {
        name: tc.function.name.clone(),
        args: tc.function.arguments.clone(),
        result: find_last_result(msgs, &tc.id),
    }
}

/// Renders one message of the history `msgs`.
fn render_message(msgs: &Vec<Message>, m: &Message) -> (r: ViewMessage)
    ensures
        r@ == view_of(msgs_view(msgs@), m@),
{
    let ghost all = msgs_view(msgs@);
    let tool_calls = match &m.tool_calls {
        Some(tcs) => {
            let mut out: Vec<ViewToolCall> = Vec::new();
            let mut k: usize = 0;
            while k < tcs.len()
                invariant
                    k <= tcs.len(),
                    all == msgs_view(msgs@),
                    view_calls_view(out@) =~= tool_calls_view(tcs@).take(k as int).map_values(
                        |t: ToolCallView| view_call(all, t),
                    ),
                decreases tcs.len() - k,
            {
                let c = render_call(msgs, &tcs[k]);
                let ghost old_out = out@;
                out.push(c);
                proof {
                    assert(view_calls_view(out@) =~= view_calls_view(old_out).push(c@));
                    assert(tool_calls_view(tcs@).take(k + 1) =~= tool_calls_view(tcs@).take(
                        k as int,
                    ).push(tcs@[k as int]@));
                }
                k = k + 1;
            }
            proof {
                assert(tool_calls_view(tcs@).take(tcs.len() as int) =~= tool_calls_view(tcs@));
            }
            Some(out)
        },
        None => None,
    };
    ViewMessage {
        role: m.role.clone(),
        content: m.content.clone(),
        reasoning_content: clone_opt_string(&m.reasoning_content),
        tool_calls,
    }
}

/// Turns a raw history into the form the front end renders: tool messages are removed and
/// the result of each tool call is embedded into the assistant message that issued it.
pub fn messages_to_view(msgs: Vec<Message>) -> (r: Vec<ViewMessage>)
    ensures
        view_msgs_view(r@) == view_list(msgs_view(msgs@), msgs_view(msgs@)),
{
    let ghost all = msgs_view(msgs@);
    let mut out: Vec<ViewMessage> = Vec::new();
    let mut i: usize = 0;
    while i < msgs.len()
        invariant
            i <= msgs.len(),
            all == msgs_view(msgs@),
            view_msgs_view(out@) =~= view_list(all, all.take(i as int)),
        decreases msgs.len() - i,
    {
        let m = &msgs[i];
        proof {
            assert(all.take(i + 1).drop_last() =~= all.take(i as int));
            assert(all.take(i + 1).last() == m@);
        }
        if !string_is(&m.role, "tool") {
            let v = render_message(&msgs, m);
            let ghost old_out = out@;
            out.push(v);
            proof {
                assert(view_msgs_view(out@) =~= view_msgs_view(old_out).push(v@));
            }
        }
        i = i + 1;
    }
    proof {
        assert(all.take(msgs.len() as int) =~= all);
    }
    out
}

/// No rendered message has the tool role.
pub proof fn lemma_view_list_has_no_tool(all: Seq<MessageView>, ms: Seq<MessageView>)
    ensures
        forall|k: int|
            0 <= k < view_list(all, ms).len() ==> (#[trigger] view_list(all, ms)[k]).role
                != "tool"@,
    decreases ms.len(),
{
    if ms.len() > 0 {
        lemma_view_list_has_no_tool(all, ms.drop_last());
    }
}

/// `id` is answered by some tool message of `all`.
pub open spec fn is_completed(all: Seq<MessageView>, id: Seq<char>) -> bool {
    exists|k: int|
        0 <= k < all.len() && (#[trigger] all[k]).role == "tool"@ && all[k].tool_call_id == Some(
            id,
        )
}

/// `calls` holds a call with the id `id`.
pub open spec fn calls_have_id(calls: Seq<ToolCallView>, id: Seq<char>) -> bool {
    exists|j: int| 0 <= j < calls.len() && (#[trigger] calls[j]).id == id
}

/// Some message of `all` with the given role issues a call with the id `id`.
pub open spec fn is_declared_by(all: Seq<MessageView>, id: Seq<char>, any_role: bool) -> bool {
    exists|k: int|
        0 <= k < all.len() && (any_role || (#[trigger] all[k]).role == "assistant"@) && match all[k].tool_calls {
            Some(calls) => calls_have_id(calls, id),
            None => false,
        }
}

/// None of the calls is answered in `all`.
pub open spec fn all_calls_orphan(all: Seq<MessageView>, calls: Seq<ToolCallView>) -> bool {
    forall|j: int| 0 <= j < calls.len() ==> !is_completed(all, (#[trigger] calls[j]).id)
}

/// Whether a message survives the removal of orphan tool messages from the history `all`.
pub open spec fn keeps_message(all: Seq<MessageView>, m: MessageView) -> bool {
    if m.role == "assistant"@ {
        match m.tool_calls {
            Some(calls) => !(all_calls_orphan(all, calls) && m.content.len() == 0),
            None => true,
        }
    } else if m.role == "tool"@ {
        match m.tool_call_id {
            Some(id) => is_declared_by(all, id, false),
            None => true,
        }
    } else {
        true
    }
}

/// The messages of `ms` that survive the removal of orphans from the history `all`, in order.
pub open spec fn kept_messages(all: Seq<MessageView>, ms: Seq<MessageView>) -> Seq<MessageView>
    decreases ms.len(),
{
    if ms.len() == 0 {
        Seq::empty()
    } else {
        let rest = kept_messages(all, ms.drop_last());
        if keeps_message(all, ms.last()) {
            rest.push(ms.last())
        } else {
            rest
        }
    }
}

proof fn lemma_kept_members(all: Seq<MessageView>, ms: Seq<MessageView>)
    ensures
        forall|m: MessageView| #[trigger] kept_messages(all, ms).contains(m) <==> ms.contains(m)
            && keeps_message(all, m),
    decreases ms.len(),
{
    if ms.len() > 0 {
        lemma_kept_members(all, ms.drop_last());
        let rest = kept_messages(all, ms.drop_last());
        assert forall|m: MessageView| #[trigger] kept_messages(all, ms).contains(m) <==> ms.contains(m)
            && keeps_message(all, m) by {
            if ms.contains(m) && keeps_message(all, m) {
                let k = choose|k: int| 0 <= k < ms.len() && ms[k] == m;
                if k < ms.len() - 1 {
                    assert(ms.drop_last()[k] == m);
                    assert(rest.contains(m));
                    if keeps_message(all, ms.last()) {
                        let j = choose|j: int| 0 <= j < rest.len() && rest[j] == m;
                        assert(rest.push(ms.last())[j] == m);
                    }
                } else {
                    assert(kept_messages(all, ms).last() == m);
                }
            }
            if kept_messages(all, ms).contains(m) {
                let j = choose|j: int| 0 <= j < kept_messages(all, ms).len() && kept_messages(all, ms)[j] == m;
                if keeps_message(all, ms.last()) && j == rest.len() {
                    assert(ms[ms.len() - 1] == m);
                } else {
                    assert(rest[j] == m);
                    assert(rest.contains(m));
                    let k = choose|k: int| 0 <= k < ms.drop_last().len() && ms.drop_last()[k] == m;
                    assert(ms[k] == m);
                }
            }
        }
    }
}

proof fn lemma_kept_all(all: Seq<MessageView>, ms: Seq<MessageView>)
    requires
        forall|k: int| 0 <= k < ms.len() ==> keeps_message(all, #[trigger] ms[k]),
    ensures
        kept_messages(all, ms) == ms,
    decreases ms.len(),
{
    if ms.len() > 0 {
        assert forall|k: int| 0 <= k < ms.drop_last().len() implies keeps_message(
            all,
            #[trigger] ms.drop_last()[k],
        ) by {
            assert(ms.drop_last()[k] == ms[k]);
        }
        lemma_kept_all(all, ms.drop_last());
        assert(keeps_message(all, ms[ms.len() - 1]));
        assert(ms.drop_last().push(ms.last()) =~= ms);
    }
}

/// Removing orphan tool messages twice removes nothing more: every message that survives the
/// first removal survives the second.
pub proof fn lemma_orphan_removal_idempotent(all: Seq<MessageView>)
    ensures
        kept_messages(kept_messages(all, all), kept_messages(all, all)) == kept_messages(all, all),
{
    let kk = kept_messages(all, all);
    lemma_kept_members(all, all);
    reveal_strlit("tool");
    reveal_strlit("assistant");
    assert("tool"@ != "assistant"@) by {
        assert("tool"@[0] != "assistant"@[0]);
    }
    assert forall|k: int| 0 <= k < kk.len() implies keeps_message(kk, #[trigger] kk[k]) by {
        let m = kk[k];
        assert(kk.contains(m));
        assert(all.contains(m) && keeps_message(all, m));
        if m.role == "assistant"@ {
            match m.tool_calls {
                Some(calls) => {
                    if m.content.len() == 0 {
                        let j = choose|j: int| 0 <= j < calls.len() && is_completed(all, (#[trigger] calls[j]).id);
                        let id = calls[j].id;
                        let t = choose|t: int|
                            0 <= t < all.len() && (#[trigger] all[t]).role == "tool"@ && all[t].tool_call_id
                                == Some(id);
                        let km = choose|km: int| 0 <= km < all.len() && all[km] == m;
                        assert(calls_have_id(calls, id));
                        assert(is_declared_by(all, id, false)) by {
                            assert(all[km].role == "assistant"@);
                        }
                        assert(keeps_message(all, all[t]));
                        assert(all.contains(all[t]));
                        assert(kk.contains(all[t]));
                        let q = choose|q: int| 0 <= q < kk.len() && kk[q] == all[t];
                        assert(is_completed(kk, id));
                        assert(!all_calls_orphan(kk, calls));
                    }
                },
                None => {},
            }
        } else if m.role == "tool"@ {
            match m.tool_call_id {
                Some(id) => {
                    let a = choose|a: int|
                        0 <= a < all.len() && (#[trigger] all[a]).role == "assistant"@ && match all[a].tool_calls {
                            Some(calls) => calls_have_id(calls, id),
                            None => false,
                        };
                    let calls = all[a].tool_calls->0;
                    let j = choose|j: int| 0 <= j < calls.len() && (#[trigger] calls[j]).id == id;
                    let km = choose|km: int| 0 <= km < all.len() && all[km] == m;
                    assert(is_completed(all, id)) by {
                        assert(all[km].role == "tool"@);
                    }
                    assert(!all_calls_orphan(all, calls)) by {
                        assert(is_completed(all, calls[j].id));
                    }
                    assert(keeps_message(all, all[a]));
                    assert(all.contains(all[a]));
                    assert(kk.contains(all[a]));
                    let q = choose|q: int| 0 <= q < kk.len() && kk[q] == all[a];
                    assert(is_declared_by(kk, id, false)) by {
                        assert(kk[q].role == "assistant"@);
                    }
                },
                None => {},
            }
        }
    }
    lemma_kept_all(kk, kk);
}

/// Whether some tool message of `msgs` answers `id`.
pub fn has_tool_result(msgs: &Vec<Message>, id: &String) -> (b: bool)
    ensures
        b == is_completed(msgs_view(msgs@), id@),
{
    let ghost all = msgs_view(msgs@);
    let mut k: usize = 0;
    while k < msgs.len()
        invariant
            k <= msgs.len(),
            all == msgs_view(msgs@),
            forall|q: int|
                0 <= q < k ==> !((#[trigger] all[q]).role == "tool"@ && all[q].tool_call_id == Some(
                    id@,
                )),
        decreases msgs.len() - k,
    {
        let m = &msgs[k];
        if string_is(&m.role, "tool") {
            match &m.tool_call_id {
                Some(tid) => {
                    if *tid == *id {
                        proof {
                            assert(all[k as int] == m@);
                        }
                        return true;
                    }
                },
                None => {},
            }
        }
        proof {
            assert(all[k as int] == m@);
        }
        k = k + 1;
    }
    false
}

/// Whether `calls` holds a call with the id `id`.
pub fn calls_contain_id(calls: &Vec<ToolCallValue>, id: &String) -> (b: bool)
    ensures
        b == calls_have_id(tool_calls_view(calls@), id@),
{
    let ghost cv = tool_calls_view(calls@);
    let mut j: usize = 0;
    while j < calls.len()
        invariant
            j <= calls.len(),
            cv == tool_calls_view(calls@),
            forall|q: int| 0 <= q < j ==> (#[trigger] cv[q]).id != id@,
        decreases calls.len() - j,
    {
        if calls[j].id == *id {
            proof {
                assert(cv[j as int] == calls@[j as int]@);
            }
            return true;
        }
        proof {
            assert(cv[j as int] == calls@[j as int]@);
        }
        j = j + 1;
    }
    false
}

/// Whether some message among the first `upto` of `msgs` (with the assistant role, unless
/// `any_role`) issues a call with the id `id`.
pub fn is_declared_in(msgs: &Vec<Message>, upto: usize, id: &String, any_role: bool) -> (b: bool)
    requires
        upto <= msgs.len(),
    ensures
        b == is_declared_by(msgs_view(msgs@).take(upto as int), id@, any_role),
{
    let ghost all = msgs_view(msgs@).take(upto as int);
    let mut k: usize = 0;
    while k < upto
        invariant
            k <= upto <= msgs.len(),
            all == msgs_view(msgs@).take(upto as int),
            forall|q: int|
                0 <= q < k ==> !((any_role || (#[trigger] all[q]).role == "assistant"@) && match all[q].tool_calls {
                    Some(calls) => calls_have_id(calls, id@),
                    None => false,
                }),
        decreases upto - k,
    {
        let m = &msgs[k];
        proof {
            assert(all[k as int] == m@);
        }
        if any_role || string_is(&m.role, "assistant") {
            match &m.tool_calls {
                Some(calls) => {
                    if calls_contain_id(calls, id) {
                        return true;
                    }
                },
                None => {},
            }
        }
        k = k + 1;
    }
    false
}

/// Whether none of `calls` is answered in `msgs`.
pub fn calls_all_orphan(msgs: &Vec<Message>, calls: &Vec<ToolCallValue>) -> (b: bool)
    ensures
        b == all_calls_orphan(msgs_view(msgs@), tool_calls_view(calls@)),
{
    let ghost cv = tool_calls_view(calls@);
    let mut j: usize = 0;
    while j < calls.len()
        invariant
            j <= calls.len(),
            cv == tool_calls_view(calls@),
            forall|q: int| 0 <= q < j ==> !is_completed(msgs_view(msgs@), (#[trigger] cv[q]).id),
        decreases calls.len() - j,
    {
        proof {
            assert(cv[j as int] == calls@[j as int]@);
        }
        if has_tool_result(msgs, &calls[j].id) {
            return false;
        }
        j = j + 1;
    }
    true
}

/// Removes orphan tool messages from a history: an assistant message whose calls are all
/// unanswered and whose content is empty, and a tool message that answers no call of an
/// assistant message. Every other message keeps its place.
pub fn remove_orphan_tool_messages(messages: &mut Vec<Message>)
    ensures
        msgs_view(final(messages)@) == kept_messages(
            msgs_view(old(messages)@),
            msgs_view(old(messages)@),
        ),
{
    let ghost all = msgs_view(messages@);
    let n = messages.len();
    let mut out: Vec<Message> = Vec::new();
    let mut i: usize = 0;
    while i < n
        invariant
            i <= n == messages.len(),
            all == msgs_view(messages@),
            msgs_view(out@) =~= kept_messages(all, all.take(i as int)),
        decreases n - i,
    {
        let m = &messages[i];
        proof {
            assert(all.take(i + 1).drop_last() =~= all.take(i as int));
            assert(all.take(i + 1).last() == m@);
            assert(all.take(n as int) =~= all);
        }
        let keep = if string_is(&m.role, "assistant") {
            match &m.tool_calls {
                Some(calls) => !(calls_all_orphan(messages, calls) && m.content.as_str().is_empty()),
                None => true,
            }
        } else if string_is(&m.role, "tool") {
            match &m.tool_call_id {
                Some(id) => is_declared_in(messages, n, id, false),
                None => true,
            }
        } else {
            true
        };
        if keep {
            let c = m.clone();
            let ghost old_out = out@;
            out.push(c);
            proof {
                assert(msgs_view(out@) =~= msgs_view(old_out).push(c@));
            }
        }
        i = i + 1;
    }
    proof {
        assert(all.take(n as int) =~= all);
    }
    *messages = out;
}

/// The name of the last call with the id `id` among `calls`.
pub open spec fn last_name_in_calls(calls: Seq<ToolCallView>, id: Seq<char>) -> Option<Seq<char>>
    decreases calls.len(),
{
    if calls.len() == 0 {
        None
    } else if calls.last().id == id {
        Some(calls.last().name)
    } else {
        last_name_in_calls(calls.drop_last(), id)
    }
}

/// The name of the last call with the id `id` issued anywhere in `ms`.
pub open spec fn last_call_name(ms: Seq<MessageView>, id: Seq<char>) -> Option<Seq<char>>
    decreases ms.len(),
{
    if ms.len() == 0 {
        None
    } else {
        let here = match ms.last().tool_calls {
            Some(calls) => last_name_in_calls(calls, id),
            None => None,
        };
        match here {
            Some(n) => Some(n),
            None => last_call_name(ms.drop_last(), id),
        }
    }
}

/// A tool message of `all` takes the name of the function that it answers, when some
/// message of `all` issued that call; every other message is left as it is.
pub open spec fn enriched(all: Seq<MessageView>, m: MessageView) -> MessageView {
    if m.role == "tool"@ {
        match m.tool_call_id {
            Some(id) => match last_call_name(all, id) {
                Some(n) => MessageView { name: Some(n), ..m },
                None => m,
            },
            None => m,
        }
    } else {
        m
    }
}

fn find_call_name_in(calls: &Vec<ToolCallValue>, id: &String) -> (r: Option<String>)
    ensures
        opt_str_view(r) == last_name_in_calls(tool_calls_view(calls@), id@),
{
    let ghost cv = tool_calls_view(calls@);
    let mut j: usize = calls.len();
    proof {
        assert(cv.take(j as int) =~= cv);
    }
    while j > 0
        invariant
            j <= calls.len(),
            cv == tool_calls_view(calls@),
            last_name_in_calls(cv, id@) == last_name_in_calls(cv.take(j as int), id@),
        decreases j,
    {
        proof {
            assert(cv.take(j as int).last() == calls@[j - 1]@);
            assert(cv.take(j as int).drop_last() =~= cv.take(j - 1));
        }
        if calls[j - 1].id == *id {
            return Some(calls[j - 1].function.name.clone());
        }
        j = j - 1;
    }
    None
}

/// The name of the function of the last call with the id `id` in `msgs`.
pub fn find_call_name(msgs: &Vec<Message>, id: &String) -> (r: Option<String>)
    ensures
        opt_str_view(r) == last_call_name(msgs_view(msgs@), id@),
{
    let ghost all = msgs_view(msgs@);
    let mut j: usize = msgs.len();
    proof {
        assert(all.take(j as int) =~= all);
    }
    while j > 0
        invariant
            j <= msgs.len(),
            all == msgs_view(msgs@),
            last_call_name(all, id@) == last_call_name(all.take(j as int), id@),
        decreases j,
    {
        proof {
            assert(all.take(j as int).last() == msgs@[j - 1]@);
            assert(all.take(j as int).drop_last() =~= all.take(j - 1));
        }
        match &msgs[j - 1].tool_calls {
            Some(calls) => {
                let found = find_call_name_in(calls, id);
                if found.is_some() {
                    return found;
                }
            },
            None => {},
        }
        j = j - 1;
    }
    None
}

/// Gives each tool message the name of the function whose call it answers (found by its
/// `tool_call_id`); messages whose call is not found are left unchanged.
pub fn enrich_tool_names(msgs: &mut Vec<Message>)
    ensures
        final(msgs)@.len() == old(msgs)@.len(),
        forall|k: int|
            0 <= k < old(msgs)@.len() ==> (#[trigger] final(msgs)@[k])@ == enriched(
                msgs_view(old(msgs)@),
                old(msgs)@[k]@,
            ),
{
    let ghost all = msgs_view(msgs@);
    let ghost orig = msgs@;
    let snapshot = clone_messages(msgs);
    let n = msgs.len();
    let mut i: usize = 0;
    while i < n
        invariant
            i <= n == msgs.len() == orig.len(),
            all == msgs_view(orig),
            msgs_view(snapshot@) == all,
            forall|k: int| i <= k < n ==> (#[trigger] msgs@[k]) == orig[k],
            forall|k: int| 0 <= k < i ==> (#[trigger] msgs@[k])@ == enriched(all, orig[k]@),
        decreases n - i,
    {
        let is_tool = string_is(&msgs[i].role, "tool");
        let name = if is_tool {
            match &msgs[i].tool_call_id {
                Some(id) => find_call_name(&snapshot, id),
                None => None,
            }
        } else {
            None
        };
        proof {
            assert(all[i as int] == orig[i as int]@);
        }
        match name {
            Some(nm) => {
                let mut m = msgs[i].clone();
                m.name = Some(nm);
                msgs.set(i, m);
            },
            None => {},
        }
        i = i + 1;
    }
}

/// Copies a list of messages.
pub fn clone_messages(v: &Vec<Message>) -> (r: Vec<Message>)
    ensures
        msgs_view(r@) == msgs_view(v@),
{
    let mut r: Vec<Message> = Vec::new();
    let mut i: usize = 0;
    while i < v.len()
        invariant
            i <= v.len(),
            msgs_view(r@) =~= msgs_view(v@.take(i as int)),
        decreases v.len() - i,
    {
        let c = v[i].clone();
        let ghost old_r = r@;
        r.push(c);
        proof {
            assert(msgs_view(r@) =~= msgs_view(old_r).push(c@));
            assert(msgs_view(v@.take(i + 1)) =~= msgs_view(v@.take(i as int)).push(v@[i as int]@));
        }
        i = i + 1;
    }
    proof {
        assert(v@.take(v.len() as int) =~= v@);
    }
    r
}

} // verus!
