//! Token usage, the events an agent run emits and the events the server streams to the
//! front end.
use vstd::prelude::*;

use crate::message::string_is;

verus! {

/// Token counts of one or more model calls.
pub struct UsageCounts {
    pub input_tokens: u32,
    pub output_tokens: u32,
    pub cache_hit_tokens: u32,
    pub cache_miss_tokens: u32,
}

impl Clone for UsageCounts {
    fn clone(&self) -> (res: Self)
        ensures
            res == *self,
    {
        UsageCounts { ..*self }
    }
}

impl Copy for UsageCounts {}

/// The usage fields of a model response as they stand in its JSON: for the first two, `None`
/// when the key is absent and `Some(None)` when it holds no unsigned integer; for the others,
/// the unsigned integer found under the key, if any.
pub struct UsageFields {
    pub input_tokens: Option<Option<u64>>,
    pub prompt_tokens: Option<u64>,
    pub output_tokens: Option<Option<u64>>,
    pub completion_tokens: Option<u64>,
    pub prompt_cache_hit_tokens: Option<u64>,
    /// `prompt_tokens_details.cached_tokens`
    pub cached_tokens: Option<u64>,
    pub prompt_cache_miss_tokens: Option<u64>,
}

/// A count under a preferred key, falling back to a second key only when the first is absent.
pub open spec fn preferred_count(first: Option<Option<u64>>, second: Option<u64>) -> u32 {
    match first {
        Some(Some(n)) => n as u32,
        Some(None) => 0,
        None => match second {
            Some(n) => n as u32,
            None => 0,
        },
    }
}

/// The number of cache hits reported in `f`.
pub open spec fn reported_cache_hit(f: UsageFields) -> u32 {
    match f.prompt_cache_hit_tokens {
        Some(n) => n as u32,
        None => match f.cached_tokens {
            Some(n) => n as u32,
            None => 0,
        },
    }
}

/// The number of cache misses: as reported, else the input tokens not hit, else all input
/// tokens.
pub open spec fn reported_cache_miss(f: UsageFields) -> u32 {
    let input = preferred_count(f.input_tokens, f.prompt_tokens);
    let hit = reported_cache_hit(f);
    match f.prompt_cache_miss_tokens {
        Some(n) => n as u32,
        None => if input > hit {
            (input - hit) as u32
        } else {
            input
        },
    }
}

/// Reads the token counts of a model response (new field names first, the older names as a
/// fallback; a missing cache-miss count is what the input has beyond the cache hits).
pub fn parse_usage(f: &UsageFields) -> (u: UsageCounts)
    ensures
        u == usage_of(*f),
        u.input_tokens == preferred_count(f.input_tokens, f.prompt_tokens),
        u.output_tokens == preferred_count(f.output_tokens, f.completion_tokens),
        u.cache_hit_tokens == reported_cache_hit(*f),
        u.cache_miss_tokens == reported_cache_miss(*f),
{
    let input: u32 = match f.input_tokens {
        Some(Some(n)) => n as u32,
        Some(None) => 0,
        None => match f.prompt_tokens {
            Some(n) => n as u32,
            None => 0,
        },
    };
    let output: u32 = match f.output_tokens {
        Some(Some(n)) => n as u32,
        Some(None) => 0,
        None => match f.completion_tokens {
            Some(n) => n as u32,
            None => 0,
        },
    };
    let hit: u32 = match f.prompt_cache_hit_tokens {
        Some(n) => n as u32,
        None => match f.cached_tokens {
            Some(n) => n as u32,
            None => 0,
        },
    };
    let miss: u32 = match f.prompt_cache_miss_tokens {
        Some(n) => n as u32,
        None => if input > hit {
            input - hit
        } else {
            input
        },
    };
    UsageCounts {
        input_tokens: input,
        output_tokens: output,
        cache_hit_tokens: hit,
        cache_miss_tokens: miss,
    }
}

/// The token counts read from usage fields (see `parse_usage`).
pub open spec fn usage_of(f: UsageFields) -> UsageCounts {
    UsageCounts {
        input_tokens: preferred_count(f.input_tokens, f.prompt_tokens),
        output_tokens: preferred_count(f.output_tokens, f.completion_tokens),
        cache_hit_tokens: reported_cache_hit(f),
        cache_miss_tokens: reported_cache_miss(f),
    }
}

/// Whether adding `b` to `a` field by field stays within `u32`.
pub open spec fn sums_fit(a: UsageCounts, b: UsageCounts) -> bool {
    &&& a.input_tokens + b.input_tokens <= u32::MAX
    &&& a.output_tokens + b.output_tokens <= u32::MAX
    &&& a.cache_hit_tokens + b.cache_hit_tokens <= u32::MAX
    &&& a.cache_miss_tokens + b.cache_miss_tokens <= u32::MAX
}

/// The field-by-field sum of two usages.
pub open spec fn usage_sum(a: UsageCounts, b: UsageCounts) -> UsageCounts {
    UsageCounts {
        input_tokens: (a.input_tokens + b.input_tokens) as u32,
        output_tokens: (a.output_tokens + b.output_tokens) as u32,
        cache_hit_tokens: (a.cache_hit_tokens + b.cache_hit_tokens) as u32,
        cache_miss_tokens: (a.cache_miss_tokens + b.cache_miss_tokens) as u32,
    }
}

/// The running total after one more round: the round's usage added to the total so far, or
/// the round's usage when there is no total yet.
pub fn accumulate_usage(total: Option<UsageCounts>, round: UsageCounts) -> (r: UsageCounts)
    requires
        match total {
            Some(t) => sums_fit(t, round),
            None => true,
        },
    ensures
        r == match total {
            Some(t) => usage_sum(t, round),
            None => round,
        },
{
    match total {
        Some(t) => UsageCounts {
            input_tokens: t.input_tokens + round.input_tokens,
            output_tokens: t.output_tokens + round.output_tokens,
            cache_hit_tokens: t.cache_hit_tokens + round.cache_hit_tokens,
            cache_miss_tokens: t.cache_miss_tokens + round.cache_miss_tokens,
        },
        None => round,
    }
}

/// Adding usages one after another gives the same total whichever way they are grouped.
pub proof fn lemma_usage_sum_associative(a: UsageCounts, b: UsageCounts, c: UsageCounts)
    requires
        sums_fit(a, b),
        sums_fit(usage_sum(a, b), c),
    ensures
        sums_fit(b, c),
        sums_fit(a, usage_sum(b, c)),
        usage_sum(usage_sum(a, b), c) == usage_sum(a, usage_sum(b, c)),
{
}

/// What a warm-up request reports: the prompt tokens and how many of them hit or missed the
/// cache (all zero when no usage came back).
pub struct WarmupInfo {
    pub total_tokens: u32,
    pub cache_hit_tokens: u32,
    pub cache_miss_tokens: u32,
}

impl WarmupInfo {
    /// The warm-up report of the usage that came back, if any.
    pub fn from_usage(usage: Option<UsageCounts>) -> (w: WarmupInfo)
        ensures
            match usage {
                Some(u) => w.total_tokens == u.input_tokens && w.cache_hit_tokens
                    == u.cache_hit_tokens && w.cache_miss_tokens == u.cache_miss_tokens,
                None => w.total_tokens == 0 && w.cache_hit_tokens == 0 && w.cache_miss_tokens
                    == 0,
            },
    {
        match usage {
            Some(u) => WarmupInfo {
                total_tokens: u.input_tokens,
                cache_hit_tokens: u.cache_hit_tokens,
                cache_miss_tokens: u.cache_miss_tokens,
            },
            None => WarmupInfo { total_tokens: 0, cache_hit_tokens: 0, cache_miss_tokens: 0 },
        }
    }
}

/// An event of an agent run.
pub enum AgentEvent {
    /// The session id (sent first).
    Session(String),
    Text(String),
    Reasoning(String),
    /// A tool call: `result` is `None` while it runs and `Some` once it is done.
    ToolCall { id: String, name: String, args: String, result: Option<String> },
    /// The usage so far.
    Usage(UsageCounts),
    /// The next model response starts a new message.
    MessageBoundary,
    Paused,
    Resumed,
    Error(String),
}

/// An event streamed to the front end.
pub enum SseEvent {
    Text { content: String },
    Reasoning { content: String },
    Session { id: String },
    Usage(UsageCounts),
    ToolCall { id: String, name: String, args: String, result: Option<String> },
    MessageBoundary,
    Paused,
    Resumed,
    Error { message: String },
}

/// The front-end event of an agent event of the main agent: each kind maps to its namesake.
pub open spec fn sse_of(e: AgentEvent) -> SseEvent {
    match e {
        AgentEvent::Session(id) => SseEvent::Session { id },
        AgentEvent::Text(t) => SseEvent::Text { content: t },
        AgentEvent::Reasoning(r) => SseEvent::Reasoning { content: r },
        AgentEvent::ToolCall { id, name, args, result } => SseEvent::ToolCall {
            id,
            name,
            args,
            result,
        },
        AgentEvent::Usage(u) => SseEvent::Usage(u),
        AgentEvent::MessageBoundary => SseEvent::MessageBoundary,
        AgentEvent::Paused => SseEvent::Paused,
        AgentEvent::Resumed => SseEvent::Resumed,
        AgentEvent::Error(m) => SseEvent::Error { message: m },
    }
}

/// The front-end event of an agent event of the main agent.
pub fn agent_event_to_sse(e: AgentEvent) -> (r: SseEvent)
    ensures
        r == sse_of(e),
{
    match e {
        AgentEvent::Session(id) => SseEvent::Session { id },
        AgentEvent::Text(t) => SseEvent::Text { content: t },
        AgentEvent::Reasoning(r) => SseEvent::Reasoning { content: r },
        AgentEvent::ToolCall { id, name, args, result } => SseEvent::ToolCall {
            id,
            name,
            args,
            result,
        },
        AgentEvent::Usage(u) => SseEvent::Usage(u),
        AgentEvent::MessageBoundary => SseEvent::MessageBoundary,
        AgentEvent::Paused => SseEvent::Paused,
        AgentEvent::Resumed => SseEvent::Resumed,
        AgentEvent::Error(m) => SseEvent::Error { message: m },
    }
}

/// Whether an event of the context agent is a finished tool call, other than `wait`, after
/// which the context file is synchronised.
pub open spec fn syncs_context(e: AgentEvent) -> bool {
    match e {
        AgentEvent::ToolCall { name, result, .. } => result is Some && name@ != "wait"@,
        _ => false,
    }
}

/// Whether the context file is synchronised after this event of the context agent.
pub fn needs_context_sync(e: &AgentEvent) -> (b: bool)
    ensures
        b == syncs_context(*e),
{
    match e {
        AgentEvent::ToolCall { name, result, .. } => result.is_some() && !string_is(name, "wait"),
        _ => false,
    }
}

/// The front-end event of an event of the context agent: text and reasoning are not shown,
/// a tool call is shown by its name and result only (empty id and arguments), and every other
/// event maps to its namesake.
pub fn surgery_event_to_sse(e: AgentEvent) -> (r: Option<SseEvent>)
    ensures
        match e {
            AgentEvent::Text(_) => r is None,
            AgentEvent::Reasoning(_) => r is None,
            AgentEvent::ToolCall { name, result, .. } => r matches Some(
                SseEvent::ToolCall { id: i, name: n, args: a, result: res },
            ) && i@.len() == 0 && a@.len() == 0 && n == name && res == result,
            _ => r == Some(sse_of(e)),
        },
{
    match e {
        AgentEvent::Text(_) => None,
        AgentEvent::Reasoning(_) => None,
        AgentEvent::ToolCall { name, result, .. } => Some(
            SseEvent::ToolCall { id: String::new(), name, args: String::new(), result },
        ),
        other => Some(agent_event_to_sse(other)),
    }
}

} // verus!
