//! The course of an agent run, step by step: what each step of the loop adds to the
//! history, which events it streams and what it asks to store. The caller performs the
//! effects (sending, storing) and the outside work (the model call, the tools) in between.
use vstd::prelude::*;

use crate::agent::{
    args_error_text, call_of, default_call_id, default_id, inject_context_path, round_message,
    round_message_view, tool_error_text, PendingView, ToolCallAccumulator,
};
use crate::context::path_join;
use crate::events::{accumulate_usage, sums_fit, usage_sum, AgentEvent, UsageCounts};
use crate::message::{msgs_view, opt_str_view, tool_calls_view, Message, MessageView};
use crate::sse::StreamDelta;
use crate::text::replaced;

verus! {

/// What the caller of a run step is asked to do, in order.
pub enum Effect {
    /// Stream this event.
    Emit(AgentEvent),
    /// Stream this event while the client listens; when sending fails, report `client_gone`.
    Offer(AgentEvent),
    /// Store this message of the session.
    Save(Message),
    /// Store the usage of the round.
    SaveUsage(UsageCounts),
    /// Keep the history as the session's context snapshot.
    Snapshot,
    /// The run is over.
    End,
}

/// The value of an event.
pub enum EventView {
    Session(Seq<char>),
    Text(Seq<char>),
    Reasoning(Seq<char>),
    ToolCall(Seq<char>, Seq<char>, Seq<char>, Option<Seq<char>>),
    Usage(UsageCounts),
    MessageBoundary,
    Paused,
    Resumed,
    Error(Seq<char>),
}

/// The value of an effect.
pub enum EffectView {
    Emit(EventView),
    Offer(EventView),
    Save(MessageView),
    SaveUsage(UsageCounts),
    Snapshot,
    End,
}

pub open spec fn event_view(e: AgentEvent) -> EventView {
    match e {
        AgentEvent::Session(s) => EventView::Session(s@),
        AgentEvent::Text(t) => EventView::Text(t@),
        AgentEvent::Reasoning(r) => EventView::Reasoning(r@),
        AgentEvent::ToolCall { id, name, args, result } => EventView::ToolCall(
            id@,
            name@,
            args@,
            opt_str_view(result),
        ),
        AgentEvent::Usage(u) => EventView::Usage(u),
        AgentEvent::MessageBoundary => EventView::MessageBoundary,
        AgentEvent::Paused => EventView::Paused,
        AgentEvent::Resumed => EventView::Resumed,
        AgentEvent::Error(m) => EventView::Error(m@),
    }
}

pub open spec fn effect_view(e: Effect) -> EffectView {
    match e {
        Effect::Emit(ev) => EffectView::Emit(event_view(ev)),
        Effect::Offer(ev) => EffectView::Offer(event_view(ev)),
        Effect::Save(m) => EffectView::Save(m@),
        Effect::SaveUsage(u) => EffectView::SaveUsage(u),
        Effect::Snapshot => EffectView::Snapshot,
        Effect::End => EffectView::End,
    }
}

pub open spec fn effects_view(s: Seq<Effect>) -> Seq<EffectView> {
    s.map_values(|e: Effect| effect_view(e))
}

/// The value of a run.
pub struct RunView {
    /// The history sent to the model.
    pub history: Seq<MessageView>,
    /// Whether the history changed since the last snapshot.
    pub changed: bool,
    /// The usage of the run so far.
    pub total: Option<UsageCounts>,
    /// Whether the run stores its messages, usage and snapshots.
    pub persist: bool,
    /// Whether the client still listens.
    pub connected: bool,
    /// The round (from 0).
    pub round: usize,
    /// The text of the response being streamed.
    pub text: Seq<char>,
    /// The reasoning of the response being streamed.
    pub reasoning: Seq<char>,
    /// The tool calls of the response being streamed.
    pub calls: Seq<PendingView>,
}

/// A call about to run: its id, the tool's name and the argument text.
pub struct CallInfo {
    pub id: String,
    pub name: String,
    pub args: String,
}

/// The state of an agent run.
pub struct RunState {
    messages: Vec<Message>,
    changed: bool,
    total: Option<UsageCounts>,
    persist: bool,
    connected: bool,
    round: usize,
    text: String,
    reasoning: String,
    calls: ToolCallAccumulator,
}

impl View for RunState {
    type V = RunView;

    closed spec fn view(&self) -> RunView {
        RunView {
            history: msgs_view(self.messages@),
            changed: self.changed,
            total: self.total,
            persist: self.persist,
            connected: self.connected,
            round: self.round,
            text: self.text@,
            reasoning: self.reasoning@,
            calls: self.calls@,
        }
    }
}

/// The value of a tool message answering the call `id`.
pub open spec fn result_view(id: Seq<char>, content: Seq<char>) -> MessageView {
    MessageView {
        role: "tool"@,
        content,
        name: None,
        reasoning_content: None,
        tool_calls: None,
        tool_call_id: Some(id),
    }
}

/// A message injected after a tool call: an "orch" message has every "CONTEXT.md" in its
/// content replaced by the path of CONTEXT.md in the session directory, when there is one.
pub open spec fn injected_view(m: MessageView, dir: Option<Seq<char>>) -> MessageView {
    match (m.name, dir) {
        (Some(n), Some(d)) => if n == "orch"@ {
            MessageView { content: replaced(m.content, "CONTEXT.md"@, path_join(d, "CONTEXT.md"@)), ..m }
        } else {
            m
        },
        _ => m,
    }
}

/// Storing a message, when the run stores anything.
pub open spec fn save_if(persist: bool, m: MessageView) -> Seq<EffectView> {
    if persist {
        seq![EffectView::Save(m)]
    } else {
        seq![]
    }
}

/// Streaming an event, while the client listens.
pub open spec fn offer_if(connected: bool, e: EventView) -> Seq<EffectView> {
    if connected {
        seq![EffectView::Offer(e)]
    } else {
        seq![]
    }
}

/// The usage of the run after a round that reported `usage`.
pub open spec fn next_total(total: Option<UsageCounts>, usage: Option<UsageCounts>) -> Option<UsageCounts> {
    match usage {
        Some(u) => Some(
            match total {
                Some(t) => usage_sum(t, u),
                None => u,
            },
        ),
        None => total,
    }
}

/// What a round's usage asks for: streaming the new total and storing the round's usage.
pub open spec fn usage_effects(total: Option<UsageCounts>, usage: Option<UsageCounts>, persist: bool) -> Seq<
    EffectView,
> {
    match usage {
        Some(u) => seq![EffectView::Emit(EventView::Usage(next_total(total, usage)->0))] + if persist {
            seq![EffectView::SaveUsage(u)]
        } else {
            seq![]
        },
        None => seq![],
    }
}

/// The id of a pending call, or the round's default id.
pub open spec fn call_id(c: PendingView, round: usize) -> Seq<char> {
    match c.id {
        Some(i) => i,
        None => default_call_id(round),
    }
}

/// The error reported when a run is stopped.
pub open spec fn stopped_text() -> Seq<char> {
    "已停止"@
}

/// A call that runs is answered under the id its response declared for it: the id that
/// `begin_call` hands back, under which the result is added, is the id the call has in the
/// assistant message that `finish_stream` added.
pub proof fn lemma_result_answers_declared_call(c: PendingView, round: usize)
    ensures
        call_of(c, round).id == call_id(c, round),
{
}

fn push_emit(effects: &mut Vec<Effect>, e: AgentEvent)
    ensures
        effects_view(final(effects)@) == effects_view(old(effects)@).push(EffectView::Emit(event_view(e))),
{
    let ghost before = old(effects)@;
    effects.push(Effect::Emit(e));
    proof {
        assert(effects_view(effects@) =~= effects_view(before).push(EffectView::Emit(event_view(e))));
    }
}

fn push_offer(effects: &mut Vec<Effect>, connected: bool, e: AgentEvent)
    ensures
        effects_view(final(effects)@) == effects_view(old(effects)@) + offer_if(connected, event_view(e)),
{
    let ghost before = old(effects)@;
    if connected {
        effects.push(Effect::Offer(e));
        proof {
            assert(effects_view(effects@) =~= effects_view(before) + offer_if(connected, event_view(e)));
        }
    } else {
        proof {
            assert(effects_view(effects@) =~= effects_view(before) + offer_if(connected, event_view(e)));
        }
    }
}

fn push_save(effects: &mut Vec<Effect>, persist: bool, m: Message)
    ensures
        effects_view(final(effects)@) == effects_view(old(effects)@) + save_if(persist, m@),
{
    let ghost before = old(effects)@;
    let ghost mv = m@;
    if persist {
        effects.push(Effect::Save(m));
    }
    proof {
        assert(effects_view(effects@) =~= effects_view(before) + save_if(persist, mv));
    }
}

fn end_effects(pre: Vec<Effect>, text: String) -> (r: Vec<Effect>)
    ensures
        effects_view(r@) == effects_view(pre@) + seq![
            EffectView::Emit(EventView::Error(text@)),
            EffectView::End,
        ],
{
    let mut r = pre;
    push_emit(&mut r, AgentEvent::Error(text));
    let ghost mid = r@;
    r.push(Effect::End);
    proof {
        assert(effects_view(r@) =~= effects_view(mid).push(EffectView::End));
    }
    r
}

impl RunState {
    /// The calls being assembled are ordered by index.
    pub closed spec fn wf(&self) -> bool {
        self.calls.wf()
    }

    /// A run over `messages`, storing what it does when `persist` holds.
    pub fn new(messages: Vec<Message>, persist: bool) -> (s: Self)
        ensures
            s.wf(),
            s@ == (RunView {
                history: msgs_view(messages@),
                changed: true,
                total: None,
                persist,
                connected: true,
                round: 0,
                text: Seq::empty(),
                reasoning: Seq::empty(),
                calls: Seq::empty(),
            }),
    {
        RunState {
            messages,
            changed: true,
            total: None,
            persist,
            connected: true,
            round: 0,
            text: String::new(),
            reasoning: String::new(),
            calls: ToolCallAccumulator::new(),
        }
    }

    /// The history.
    pub fn messages(&self) -> (r: &Vec<Message>)
        ensures
            msgs_view(r@) == self@.history,
    {
        &self.messages
    }

    /// The usage of the run so far.
    pub fn total(&self) -> (r: Option<UsageCounts>)
        ensures
            r == self@.total,
    {
        self.total
    }

    /// The round.
    pub fn round(&self) -> (r: usize)
        ensures
            r == self@.round,
    {
        self.round
    }

    /// The number of tool calls of the response.
    pub fn call_count(&self) -> (n: usize)
        ensures
            n == self@.calls.len(),
    {
        self.calls.pending().len()
    }

    /// Starts a round: a snapshot when the history changed (and the run stores), and a
    /// fresh response with the client taken as listening.
    pub fn begin_round(&mut self) -> (r: Vec<Effect>)
        requires
            old(self).wf(),
        ensures
            final(self).wf(),
            effects_view(r@) == if old(self)@.changed && old(self)@.persist {
                seq![EffectView::Snapshot]
            } else {
                seq![]
            },
            final(self)@ == (RunView {
                changed: old(self)@.changed && !old(self)@.persist,
                connected: true,
                text: Seq::empty(),
                reasoning: Seq::empty(),
                calls: Seq::empty(),
                ..old(self)@
            }),
    {
        let mut r: Vec<Effect> = Vec::new();
        if self.changed && self.persist {
            r.push(Effect::Snapshot);
            self.changed = false;
        }
        self.connected = true;
        self.text = String::new();
        self.reasoning = String::new();
        self.calls = ToolCallAccumulator::new();
        proof {
            assert(effects_view(r@) =~= if old(self)@.changed && old(self)@.persist {
                seq![EffectView::Snapshot]
            } else {
                seq![]
            });
        }
        r
    }

    /// The run was stopped: (when it was stopped while paused, and stores) a snapshot, then
    /// the error "已停止", and the end.
    pub fn stop(&self, while_paused: bool) -> (r: Vec<Effect>)
        ensures
            effects_view(r@) == (if while_paused && self@.persist {
                seq![EffectView::Snapshot]
            } else {
                seq![]
            }) + seq![EffectView::Emit(EventView::Error(stopped_text())), EffectView::End],
    {
        let mut pre: Vec<Effect> = Vec::new();
        if while_paused && self.persist {
            pre.push(Effect::Snapshot);
        }
        proof {
            assert(effects_view(pre@) =~= if while_paused && self@.persist {
                seq![EffectView::Snapshot]
            } else {
                seq![]
            });
        }
        end_effects(pre, String::from_str("已停止"))
    }

    /// The model call failed: the error "LLM 调用失败: {err}" and the end.
    pub fn llm_failed(&self, err: &str) -> (r: Vec<Effect>)
        ensures
            effects_view(r@) == seq![
                EffectView::Emit(EventView::Error("LLM 调用失败: "@ + err@)),
                EffectView::End,
            ],
    {
        let mut text = String::from_str("LLM 调用失败: ");
        text.append(err);
        let r = end_effects(Vec::new(), text);
        proof {
            assert(effects_view(Seq::<Effect>::empty()) =~= Seq::<EffectView>::empty());
            assert(effects_view(r@) =~= seq![
                EffectView::Emit(EventView::Error("LLM 调用失败: "@ + err@)),
                EffectView::End,
            ]);
        }
        r
    }

    /// Reading the response failed: the error "流式读取失败: {err}" and the end.
    pub fn stream_failed(&self, err: &str) -> (r: Vec<Effect>)
        ensures
            effects_view(r@) == seq![
                EffectView::Emit(EventView::Error("流式读取失败: "@ + err@)),
                EffectView::End,
            ],
    {
        let mut text = String::from_str("流式读取失败: ");
        text.append(err);
        let r = end_effects(Vec::new(), text);
        proof {
            assert(effects_view(Seq::<Effect>::empty()) =~= Seq::<EffectView>::empty());
            assert(effects_view(r@) =~= seq![
                EffectView::Emit(EventView::Error("流式读取失败: "@ + err@)),
                EffectView::End,
            ]);
        }
        r
    }

    /// The client stopped listening.
    pub fn client_gone(&mut self)
        requires
            old(self).wf(),
        ensures
            final(self).wf(),
            final(self)@ == (RunView { connected: false, ..old(self)@ }),
    {
        self.connected = false;
    }

    /// A streamed piece: text and reasoning extend the response and are streamed while the
    /// client listens; a tool-call piece is absorbed into the calls.
    pub fn on_delta(&mut self, d: StreamDelta) -> (r: Vec<Effect>)
        requires
            old(self).wf(),
        ensures
            final(self).wf(),
            match d {
                StreamDelta::Text(t) => final(self)@ == (RunView { text: old(self)@.text + t@, ..old(self)@ })
                    && effects_view(r@) == offer_if(old(self)@.connected, EventView::Text(t@)),
                StreamDelta::Reasoning(t) => final(self)@ == (RunView {
                    reasoning: old(self)@.reasoning + t@,
                    ..old(self)@
                }) && effects_view(r@) == offer_if(old(self)@.connected, EventView::Reasoning(t@)),
                StreamDelta::ToolCall { index, id, name, arguments } => final(self)@ == (RunView {
                    calls: crate::agent::absorbed(
                        old(self)@.calls,
                        index,
                        opt_str_view(id),
                        opt_str_view(name),
                        arguments@,
                    ),
                    ..old(self)@
                }) && effects_view(r@) == Seq::<EffectView>::empty(),
            },
    {
        let mut r: Vec<Effect> = Vec::new();
        proof {
            assert(effects_view(r@) =~= Seq::<EffectView>::empty());
        }
        match d {
            StreamDelta::Text(t) => {
                self.text.append(t.as_str());
                push_offer(&mut r, self.connected, AgentEvent::Text(t));
            },
            StreamDelta::Reasoning(t) => {
                self.reasoning.append(t.as_str());
                push_offer(&mut r, self.connected, AgentEvent::Reasoning(t));
            },
            StreamDelta::ToolCall { index, id, name, arguments } => {
                self.calls.absorb(index, id, name, arguments.as_str());
            },
        }
        r
    }

    /// The response is complete: the message it leaves (see `round_message_view`) is added
    /// and stored, the round's usage is added to the run's and reported; a response without
    /// tool calls ends the run (with a snapshot when the history changed and the run
    /// stores). `r.1` tells whether the run is over.
    pub fn finish_stream(&mut self, usage: Option<UsageCounts>) -> (r: (Vec<Effect>, bool))
        requires
            old(self).wf(),
            match (old(self)@.total, usage) {
                (Some(t), Some(u)) => sums_fit(t, u),
                _ => true,
            },
        ensures
            final(self).wf(),
            ({
                let o = old(self)@;
                let msg = round_message_view(
                    o.text,
                    o.reasoning,
                    if o.calls.len() == 0 {
                        None
                    } else {
                        Some(o.calls.map_values(|c: PendingView| call_of(c, o.round)))
                    },
                );
                let changed = msg is Some || o.changed;
                &&& r.1 == (o.calls.len() == 0)
                &&& final(self)@ == (RunView {
                    history: match msg {
                        Some(m) => o.history.push(m),
                        None => o.history,
                    },
                    changed,
                    total: next_total(o.total, usage),
                    ..o
                })
                &&& effects_view(r.0@) == (match msg {
                    Some(m) => save_if(o.persist, m),
                    None => Seq::<EffectView>::empty(),
                }) + usage_effects(o.total, usage, o.persist) + if o.calls.len() == 0 {
                    (if changed && o.persist {
                        seq![EffectView::Snapshot]
                    } else {
                        seq![]
                    }) + seq![EffectView::End]
                } else {
                    seq![]
                }
            }),
    {
        let ghost o = self@;
        let done = self.calls.is_empty();
        let text = self.text.clone();
        let reasoning = self.reasoning.clone();
        let calls = if done {
            None
        } else {
            Some(self.calls.tool_calls(self.round))
        };
        let msg = round_message(text, reasoning, calls);
        let mut r: Vec<Effect> = Vec::new();
        proof {
            assert(effects_view(r@) =~= Seq::<EffectView>::empty());
        }
        let ghost mv: Option<MessageView> = match &msg {
            Some(m) => Some(m@),
            None => None,
        };
        match msg {
            Some(m) => {
                let kept = m.clone();
                push_save(&mut r, self.persist, kept);
                self.messages.push(m);
                self.changed = true;
                proof {
                    assert(msgs_view(self.messages@) =~= o.history.push(mv->0));
                }
            },
            None => {},
        }
        let ghost after_msg = r@;
        match usage {
            Some(u) => {
                let t = accumulate_usage(self.total, u);
                self.total = Some(t);
                push_emit(&mut r, AgentEvent::Usage(t));
                if self.persist {
                    let ghost mid = r@;
                    r.push(Effect::SaveUsage(u));
                    proof {
                        assert(effects_view(r@) =~= effects_view(mid).push(EffectView::SaveUsage(u)));
                    }
                }
                proof {
                    assert(effects_view(r@) =~= effects_view(after_msg) + usage_effects(o.total, usage, o.persist));
                }
            },
            None => {
                proof {
                    assert(effects_view(r@) =~= effects_view(after_msg) + usage_effects(o.total, usage, o.persist));
                }
            },
        }
        if done {
            let ghost mid = r@;
            if self.changed && self.persist {
                r.push(Effect::Snapshot);
            }
            let ghost mid2 = r@;
            r.push(Effect::End);
            proof {
                assert(effects_view(mid2) =~= effects_view(mid) + if self.changed && self.persist {
                    seq![EffectView::Snapshot]
                } else {
                    seq![]
                });
                assert(effects_view(r@) =~= effects_view(mid2).push(EffectView::End));
            }
        }
        (r, done)
    }

    /// Looks at the call `k` of the response before it runs: a call without a name is
    /// reported as an error and skipped; otherwise its id (the round's default id when it
    /// has none), name and arguments come back, and the call is streamed as pending while
    /// the client listens.
    pub fn begin_call(&self, k: usize) -> (r: (Vec<Effect>, Option<CallInfo>))
        requires
            self.wf(),
            k < self@.calls.len(),
        ensures
            ({
                let c = self@.calls[k as int];
                match c.name {
                    None => r.1 is None && effects_view(r.0@) == seq![
                        EffectView::Emit(EventView::Error("工具调用缺少 name"@)),
                    ],
                    Some(n) => r.1 matches Some(ci) && ci.id@ == call_id(c, self@.round) && ci.name@ == n
                        && ci.args@ == c.arguments && effects_view(r.0@) == offer_if(
                        self@.connected,
                        EventView::ToolCall(call_id(c, self@.round), n, c.arguments, None),
                    ),
                }
            }),
    {
        let all = self.calls.pending();
        let p = &all[k];
        proof {
            assert(crate::agent::pending_views(all@)[k as int] == p@);
        }
        let mut r: Vec<Effect> = Vec::new();
        proof {
            assert(effects_view(r@) =~= Seq::<EffectView>::empty());
        }
        match &p.name {
            None => {
                push_emit(&mut r, AgentEvent::Error(String::from_str("工具调用缺少 name")));
                (r, None)
            },
            Some(n) => {
                let id = match &p.id {
                    Some(i) => i.clone(),
                    None => default_id(self.round),
                };
                let info = CallInfo { id: id.clone(), name: n.clone(), args: p.arguments.clone() };
                push_offer(
                    &mut r,
                    self.connected,
                    AgentEvent::ToolCall {
                        id,
                        name: n.clone(),
                        args: p.arguments.clone(),
                        result: None,
                    },
                );
                (r, Some(info))
            },
        }
    }

    /// Answers the call `c` with `text`: the result is streamed (always, or only while the
    /// client listens), stored and added to the history.
    fn answer(&mut self, c: &CallInfo, text: String, always: bool) -> (r: Vec<Effect>)
        requires
            old(self).wf(),
        ensures
            final(self).wf(),
            final(self)@ == (RunView {
                history: old(self)@.history.push(result_view(c.id@, text@)),
                changed: true,
                ..old(self)@
            }),
            effects_view(r@) == (if always {
                seq![EffectView::Emit(EventView::ToolCall(c.id@, c.name@, c.args@, Some(text@)))]
            } else {
                offer_if(old(self)@.connected, EventView::ToolCall(c.id@, c.name@, c.args@, Some(text@)))
            }) + save_if(old(self)@.persist, result_view(c.id@, text@)),
    {
        let mut r: Vec<Effect> = Vec::new();
        proof {
            assert(effects_view(r@) =~= Seq::<EffectView>::empty());
        }
        let event = AgentEvent::ToolCall {
            id: c.id.clone(),
            name: c.name.clone(),
            args: c.args.clone(),
            result: Some(text.clone()),
        };
        if always {
            push_emit(&mut r, event);
        } else {
            push_offer(&mut r, self.connected, event);
        }
        let msg = Message::new_tool_result(c.id.as_str(), text.as_str());
        proof {
            assert(msg@ == result_view(c.id@, text@));
        }
        let ghost mv = msg@;
        let saved = msg.clone();
        push_save(&mut r, self.persist, saved);
        let ghost before = msgs_view(self.messages@);
        self.messages.push(msg);
        self.changed = true;
        proof {
            assert(msgs_view(self.messages@) =~= before.push(mv));
        }
        r
    }

    /// The arguments of the call were no valid JSON: the call is answered with
    /// "解析 {name} 参数失败: {err}".
    pub fn call_invalid_args(&mut self, c: &CallInfo, err: &str) -> (r: Vec<Effect>)
        requires
            old(self).wf(),
        ensures
            final(self).wf(),
            ({
                let text = "解析 "@ + c.name@ + " 参数失败: "@ + err@;
                &&& final(self)@ == (RunView {
                    history: old(self)@.history.push(result_view(c.id@, text)),
                    changed: true,
                    ..old(self)@
                })
                &&& effects_view(r@) == seq![
                    EffectView::Emit(EventView::ToolCall(c.id@, c.name@, c.args@, Some(text))),
                ] + save_if(old(self)@.persist, result_view(c.id@, text))
            }),
    {
        let text = args_error_text(c.name.as_str(), err);
        self.answer(c, text, true)
    }

    /// The run was stopped before the call ran: the call is answered with "已停止".
    pub fn call_stopped(&mut self, c: &CallInfo) -> (r: Vec<Effect>)
        requires
            old(self).wf(),
        ensures
            final(self).wf(),
            final(self)@ == (RunView {
                history: old(self)@.history.push(result_view(c.id@, stopped_text())),
                changed: true,
                ..old(self)@
            }),
            effects_view(r@) == seq![
                EffectView::Emit(EventView::ToolCall(c.id@, c.name@, c.args@, Some(stopped_text()))),
            ] + save_if(old(self)@.persist, result_view(c.id@, stopped_text())),
    {
        self.answer(c, String::from_str("已停止"), true)
    }

    /// The tool failed: the call is answered with "{name} 执行失败: {err}".
    pub fn call_failed(&mut self, c: &CallInfo, err: &str) -> (r: Vec<Effect>)
        requires
            old(self).wf(),
        ensures
            final(self).wf(),
            ({
                let text = c.name@ + " 执行失败: "@ + err@;
                &&& final(self)@ == (RunView {
                    history: old(self)@.history.push(result_view(c.id@, text)),
                    changed: true,
                    ..old(self)@
                })
                &&& effects_view(r@) == seq![
                    EffectView::Emit(EventView::ToolCall(c.id@, c.name@, c.args@, Some(text))),
                ] + save_if(old(self)@.persist, result_view(c.id@, text))
            }),
    {
        let text = tool_error_text(c.name.as_str(), err);
        self.answer(c, text, true)
    }

    /// The tool ran: the call is answered with its summary (streamed while the client
    /// listens), then the messages the tool injects follow, each with the session's
    /// CONTEXT.md path (see `injected_view`).
    pub fn call_done(&mut self, c: &CallInfo, summary: &str, injected: Vec<Message>, session_dir: Option<&str>) -> (r:
        Vec<Effect>)
        requires
            old(self).wf(),
        ensures
            final(self).wf(),
            ({
                let dir = match session_dir {
                    Some(d) => Some(d@),
                    None => None,
                };
                let inj = Seq::new(injected@.len(), |k: int| injected_view(injected@[k]@, dir));
                &&& final(self)@ == (RunView {
                    history: old(self)@.history.push(result_view(c.id@, summary@)) + inj,
                    changed: true,
                    ..old(self)@
                })
                &&& effects_view(r@) == offer_if(
                    old(self)@.connected,
                    EventView::ToolCall(c.id@, c.name@, c.args@, Some(summary@)),
                ) + save_if(old(self)@.persist, result_view(c.id@, summary@)) + if old(self)@.persist {
                    inj.map_values(|m: MessageView| EffectView::Save(m))
                } else {
                    Seq::<EffectView>::empty()
                }
            }),
    {
        let ghost dir = match session_dir {
            Some(d) => Some(d@),
            None => None::<Seq<char>>,
        };
        let ghost inj = Seq::new(injected@.len(), |k: int| injected_view(injected@[k]@, dir));
        let mut r = self.answer(c, summary.to_owned(), false);
        let ghost r0 = effects_view(r@);
        let ghost h0 = msgs_view(self.messages@);
        let n = injected.len();
        let mut rest = injected;
        let ghost all = rest@;
        let mut i: usize = 0;
        while i < n
            invariant
                self.wf(),
                i <= n == all.len(),
                rest@ == all.skip(i as int),
                inj == Seq::new(all.len(), |k: int| injected_view(all[k]@, dir)),
                msgs_view(self.messages@) == h0 + inj.take(i as int),
                self.changed,
                self.persist == old(self).persist,
                self@ == (RunView { history: h0 + inj.take(i as int), changed: true, ..old(self)@ }),
                effects_view(r@) == r0 + if self.persist {
                    inj.take(i as int).map_values(|m: MessageView| EffectView::Save(m))
                } else {
                    Seq::<EffectView>::empty()
                },
                dir == match session_dir {
                    Some(d) => Some(d@),
                    None => None,
                },
            decreases n - i,
        {
            let m = rest.remove(0);
            proof {
                assert(m == all[i as int]);
                assert(rest@ =~= all.skip(i + 1));
            }
            let fixed = inject_context_path(m, session_dir);
            proof {
                assert(fixed@ == inj[i as int]);
            }
            let ghost fv = fixed@;
            let ghost e0 = effects_view(r@);
            push_save(&mut r, self.persist, fixed.clone());
            let ghost hb = msgs_view(self.messages@);
            self.messages.push(fixed);
            proof {
                assert(msgs_view(self.messages@) =~= hb.push(fv));
                assert(inj.take(i + 1) =~= inj.take(i as int).push(fv));
                assert(h0 + inj.take(i + 1) =~= (h0 + inj.take(i as int)).push(fv));
                if self.persist {
                    assert(inj.take(i + 1).map_values(|m: MessageView| EffectView::Save(m)) =~= inj.take(
                        i as int,
                    ).map_values(|m: MessageView| EffectView::Save(m)).push(EffectView::Save(fv)));
                }
                assert(effects_view(r@) =~= r0 + if self.persist {
                    inj.take(i + 1).map_values(|m: MessageView| EffectView::Save(m))
                } else {
                    Seq::<EffectView>::empty()
                });
            }
            i = i + 1;
        }
        proof {
            assert(inj.take(n as int) =~= inj);
        }
        r
    }

    /// The round is over: the front end is told that a new message starts.
    pub fn end_round(&mut self) -> (r: Vec<Effect>)
        requires
            old(self).wf(),
            old(self)@.round < usize::MAX,
        ensures
            final(self).wf(),
            final(self)@ == (RunView { round: (old(self)@.round + 1) as usize, ..old(self)@ }),
            effects_view(r@) == seq![EffectView::Emit(EventView::MessageBoundary)],
    {
        self.round = self.round + 1;
        let mut r: Vec<Effect> = Vec::new();
        proof {
            assert(effects_view(r@) =~= Seq::<EffectView>::empty());
        }
        push_emit(&mut r, AgentEvent::MessageBoundary);
        proof {
            assert(effects_view(r@) =~= seq![EffectView::Emit(EventView::MessageBoundary)]);
        }
        r
    }
}

} // verus!
