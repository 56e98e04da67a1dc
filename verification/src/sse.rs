//! Reading the model's server-sent event stream: splitting the received text into lines,
//! telling the data lines apart, and turning each data chunk into the next streamed piece.
use vstd::prelude::*;

use crate::events::{parse_usage, UsageCounts, UsageFields};
use crate::text::{str_chars, string_from_chars, trim, trimmed};

verus! {

/// A piece of a streamed model response.
pub enum StreamDelta {
    Reasoning(String),
    Text(String),
    /// A piece of a tool call (its argument text is appended to the call `index`).
    ToolCall { index: usize, id: Option<String>, name: Option<String>, arguments: String },
}

/// A tool-call piece as it stands in a chunk's JSON.
pub struct ToolCallFields {
    /// `index`, when it holds an unsigned integer.
    pub index: Option<u64>,
    /// `id`, when it holds a string.
    pub id: Option<String>,
    /// `function.name`, when it holds a string.
    pub name: Option<String>,
    /// `function.arguments`, when it holds a string.
    pub arguments: Option<String>,
}

/// The `delta` of a choice as it stands in a chunk's JSON (string fields only when they
/// hold strings; no tool calls when there is no array of them).
pub struct DeltaFields {
    pub reasoning_content: Option<String>,
    pub content: Option<String>,
    pub tool_calls: Vec<ToolCallFields>,
}

/// A data chunk of the stream: its usage, when it has a non-null one, and the deltas of its
/// choices.
pub struct ChunkFields {
    pub usage: Option<UsageFields>,
    pub choices: Vec<DeltaFields>,
}

/// The value of a streamed piece: 0 reasoning, 1 text, 2 tool call, with the call's index,
/// id, name and arguments.
pub open spec fn delta_view(d: StreamDelta) -> (int, Seq<char>, usize, Option<Seq<char>>, Option<Seq<char>>) {
    match d {
        StreamDelta::Reasoning(r) => (0, r@, 0, None, None),
        StreamDelta::Text(t) => (1, t@, 0, None, None),
        StreamDelta::ToolCall { index, id, name, arguments } => (
            2,
            arguments@,
            index,
            crate::message::opt_str_view(id),
            crate::message::opt_str_view(name),
        ),
    }
}

/// The piece a choice's delta yields: non-empty reasoning first, then non-empty text, then
/// its first tool call (index 0 when none is given, empty arguments when none are given).
pub open spec fn delta_piece(d: DeltaFields) -> Option<(int, Seq<char>, usize, Option<Seq<char>>, Option<Seq<char>>)> {
    if d.reasoning_content is Some && d.reasoning_content->0@.len() > 0 {
        Some((0, d.reasoning_content->0@, 0, None, None))
    } else if d.content is Some && d.content->0@.len() > 0 {
        Some((1, d.content->0@, 0, None, None))
    } else if d.tool_calls@.len() > 0 {
        let tc = d.tool_calls@[0];
        Some(
            (
                2,
                match tc.arguments {
                    Some(a) => a@,
                    None => Seq::empty(),
                },
                match tc.index {
                    Some(i) => i as usize,
                    None => 0,
                },
                crate::message::opt_str_view(tc.id),
                crate::message::opt_str_view(tc.name),
            ),
        )
    } else {
        None
    }
}

/// The piece of a chunk: that of its first choice that yields one.
pub open spec fn chunk_piece(choices: Seq<DeltaFields>) -> Option<(int, Seq<char>, usize, Option<Seq<char>>, Option<Seq<char>>)>
    decreases choices.len(),
{
    if choices.len() == 0 {
        None
    } else if delta_piece(choices[0]) is Some {
        delta_piece(choices[0])
    } else {
        chunk_piece(choices.skip(1))
    }
}

fn copy_opt(o: &Option<String>) -> (r: Option<String>)
    ensures
        r == *o,
{
    match o {
        Some(s) => Some(s.clone()),
        None => None,
    }
}

fn piece_of(d: &DeltaFields) -> (r: Option<StreamDelta>)
    ensures
        match r {
            Some(x) => delta_piece(*d) == Some(delta_view(x)),
            None => delta_piece(*d) is None,
        },
{
    match &d.reasoning_content {
        Some(r) => {
            if !r.as_str().is_empty() {
                return Some(StreamDelta::Reasoning(r.clone()));
            }
        },
        None => {},
    }
    match &d.content {
        Some(c) => {
            if !c.as_str().is_empty() {
                return Some(StreamDelta::Text(c.clone()));
            }
        },
        None => {},
    }
    if d.tool_calls.len() > 0 {
        let tc = &d.tool_calls[0];
        let index: usize = match tc.index {
            Some(i) => i as usize,
            None => 0,
        };
        let arguments = match &tc.arguments {
            Some(a) => a.clone(),
            None => String::new(),
        };
        return Some(
            StreamDelta::ToolCall { index, id: copy_opt(&tc.id), name: copy_opt(&tc.name), arguments },
        );
    }
    None
}

/// The streamed piece a data chunk yields, if any (see `chunk_piece`).
pub fn chunk_delta(chunk: &ChunkFields) -> (r: Option<StreamDelta>)
    ensures
        match r {
            Some(x) => chunk_piece(chunk.choices@) == Some(delta_view(x)),
            None => chunk_piece(chunk.choices@) is None,
        },
{
    let mut i: usize = 0;
    proof {
        assert(chunk.choices@.skip(0) =~= chunk.choices@);
    }
    while i < chunk.choices.len()
        invariant
            i <= chunk.choices.len(),
            chunk_piece(chunk.choices@) == chunk_piece(chunk.choices@.skip(i as int)),
        decreases chunk.choices.len() - i,
    {
        let ghost rest = chunk.choices@.skip(i as int);
        proof {
            assert(rest[0] == chunk.choices@[i as int]);
            assert(rest.skip(1) =~= chunk.choices@.skip(i + 1));
        }
        match piece_of(&chunk.choices[i]) {
            Some(x) => {
                return Some(x);
            },
            None => {},
        }
        i = i + 1;
    }
    None
}

/// What a line of the stream is.
pub enum SseLine {
    /// A blank line, or one that carries no data.
    Skip,
    /// The end marker "data: [DONE]".
    Done,
    /// The JSON text of a data line.
    Payload(String),
}

/// A line, trimmed, is skipped when empty or not a "data: " line; otherwise its data,
/// trimmed, is the end marker "[DONE]" or a JSON payload.
pub open spec fn line_kind(raw: Seq<char>) -> (int, Seq<char>) {
    let line = trimmed(raw);
    let prefix = "data: "@;
    if line.len() == 0 || line.len() < prefix.len() || line.take(prefix.len() as int) != prefix {
        (0, Seq::empty())
    } else {
        let data = trimmed(line.skip(prefix.len() as int));
        if data == "[DONE]"@ {
            (1, Seq::empty())
        } else {
            (2, data)
        }
    }
}

pub open spec fn sse_line_view(l: SseLine) -> (int, Seq<char>) {
    match l {
        SseLine::Skip => (0, Seq::empty()),
        SseLine::Done => (1, Seq::empty()),
        SseLine::Payload(p) => (2, p@),
    }
}

/// What a line of the stream is (see `line_kind`).
pub fn classify_line(raw: &str) -> (r: SseLine)
    ensures
        sse_line_view(r) == line_kind(raw@),
{
    let line = trim(raw);
    let lc = str_chars(line.as_str());
    let pc = str_chars("data: ");
    proof {
        reveal_strlit("data: ");
        reveal_strlit("[DONE]");
    }
    if lc.len() == 0 || lc.len() < pc.len() || !crate::text::matches_at_chars(&lc, &pc, 0) {
        proof {
            if lc@.len() >= pc@.len() {
                assert(lc@.subrange(0, pc@.len() as int) =~= lc@.take(pc@.len() as int));
            }
        }
        return SseLine::Skip;
    }
    proof {
        assert(lc@.subrange(0, pc@.len() as int) =~= lc@.take(pc@.len() as int));
    }
    let mut rest: Vec<char> = Vec::new();
    let mut k: usize = pc.len();
    while k < lc.len()
        invariant
            pc.len() <= k <= lc.len(),
            rest@ == lc@.subrange(pc@.len() as int, k as int),
        decreases lc.len() - k,
    {
        rest.push(lc[k]);
        proof {
            assert(lc@.subrange(pc@.len() as int, k + 1) =~= lc@.subrange(pc@.len() as int, k as int).push(lc@[k as int]));
        }
        k = k + 1;
    }
    proof {
        assert(rest@ =~= lc@.skip(pc@.len() as int));
    }
    let rs = string_from_chars(&rest);
    let data = trim(rs.as_str());
    let done = String::from_str("[DONE]");
    if data == done {
        SseLine::Done
    } else {
        SseLine::Payload(data)
    }
}

/// The position of the first line break in `s`, if any.
pub open spec fn first_newline(s: Seq<char>) -> Option<int> {
    if exists|i: int| 0 <= i < s.len() && s[i] == '\n' {
        Some(choose|i: int| 0 <= i < s.len() && s[i] == '\n' && forall|k: int| 0 <= k < i ==> s[k] != '\n')
    } else {
        None
    }
}

/// What the next call on the stream brings.
pub enum StreamStep {
    /// No complete data line is buffered: more text must be read.
    NeedData,
    /// The stream is over.
    Done,
    /// The JSON text of the next data line.
    Payload(String),
}

pub open spec fn step_view(s: StreamStep) -> (int, Seq<char>) {
    match s {
        StreamStep::NeedData => (0, Seq::empty()),
        StreamStep::Done => (1, Seq::empty()),
        StreamStep::Payload(p) => (2, p@),
    }
}

/// Scanning the buffered text line by line: skipped lines are dropped; the first data line
/// or end marker is the step, and what follows its line stays buffered. Without a complete
/// line, more text is needed and the buffer stays as it is.
pub open spec fn scan(buf: Seq<char>) -> ((int, Seq<char>), Seq<char>)
    decreases buf.len(),
{
    match first_newline(buf) {
        None => ((0, Seq::empty()), buf),
        Some(i) => if 0 <= i < buf.len() {
            let kind = line_kind(buf.take(i));
            let rest = buf.skip(i + 1);
            if kind.0 == 0 {
                scan(rest)
            } else {
                (kind, rest)
            }
        } else {
            ((0, Seq::empty()), buf)
        },
    }
}

proof fn lemma_first_newline(s: Seq<char>, i: int)
    requires
        0 <= i < s.len(),
        s[i] == '\n',
        forall|k: int| 0 <= k < i ==> s[k] != '\n',
    ensures
        first_newline(s) == Some(i),
{
    let j = choose|j: int| 0 <= j < s.len() && s[j] == '\n' && forall|k: int| 0 <= k < j ==> s[k] != '\n';
    assert(0 <= j < s.len() && s[j] == '\n' && forall|k: int| 0 <= k < j ==> s[k] != '\n');
    if j < i {
        assert(s[j] != '\n');
    } else if j > i {
        assert(s[i] != '\n');
    }
}

/// The reading state of a model response stream.
pub struct StreamCore {
    buf: Vec<char>,
    usage: Option<UsageCounts>,
    ended: bool,
}

impl StreamCore {
    /// The buffered text.
    pub closed spec fn buffered(&self) -> Seq<char> {
        self.buf@
    }

    /// The last usage the stream reported.
    pub closed spec fn reported(&self) -> Option<UsageCounts> {
        self.usage
    }

    /// Whether the stream is over.
    pub closed spec fn is_ended(&self) -> bool {
        self.ended
    }

    /// A stream that has read nothing.
    pub fn new() -> (s: Self)
        ensures
            s.buffered() == Seq::<char>::empty(),
            s.reported() is None,
            !s.is_ended(),
    {
        StreamCore { buf: Vec::new(), usage: None, ended: false }
    }

    /// Whether the stream is over.
    pub fn ended(&self) -> (b: bool)
        ensures
            b == self.is_ended(),
    {
        self.ended
    }

    /// Marks the stream as over (it ended or failed).
    pub fn finish(&mut self)
        ensures
            final(self).is_ended(),
            final(self).buffered() == old(self).buffered(),
            final(self).reported() == old(self).reported(),
    {
        self.ended = true;
    }

    /// Appends received text to the buffer.
    pub fn push_text(&mut self, text: &str)
        ensures
            final(self).buffered() == old(self).buffered() + text@,
            final(self).reported() == old(self).reported(),
            final(self).is_ended() == old(self).is_ended(),
    {
        let tc = str_chars(text);
        let mut i: usize = 0;
        let ghost start = self.buf@;
        while i < tc.len()
            invariant
                i <= tc.len(),
                self.buf@ == start + tc@.take(i as int),
                self.usage == old(self).usage,
                self.ended == old(self).ended,
            decreases tc.len() - i,
        {
            self.buf.push(tc[i]);
            proof {
                assert(tc@.take(i + 1) =~= tc@.take(i as int).push(tc@[i as int]));
            }
            i = i + 1;
        }
        proof {
            assert(tc@.take(tc@.len() as int) =~= tc@);
        }
    }

    /// The next step of the stream: once over, it stays over; otherwise the buffered lines
    /// are scanned (see `scan`), and the end marker ends the stream.
    pub fn next_step(&mut self) -> (r: StreamStep)
        ensures
            final(self).reported() == old(self).reported(),
            old(self).is_ended() ==> step_view(r) == (1int, Seq::<char>::empty())
                && final(self).is_ended() && final(self).buffered() == old(self).buffered(),
            !old(self).is_ended() ==> {
                &&& step_view(r) == scan(old(self).buffered()).0
                &&& final(self).buffered() == scan(old(self).buffered()).1
                &&& final(self).is_ended() == (step_view(r).0 == 1)
            },
    {
        if self.ended {
            return StreamStep::Done;
        }
        loop
            invariant
                !self.ended,
                !old(self).ended,
                self.usage == old(self).reported(),
                scan(old(self).buffered()) == scan(self.buf@),
            decreases self.buf@.len(),
        {
            let mut i: usize = 0;
            while i < self.buf.len() && self.buf[i] != '\n'
                invariant
                    i <= self.buf.len(),
                    forall|k: int| 0 <= k < i ==> self.buf@[k] != '\n',
                decreases self.buf.len() - i,
            {
                i = i + 1;
            }
            if i == self.buf.len() {
                proof {
                    assert(!(exists|k: int| 0 <= k < self.buf@.len() && self.buf@[k] == '\n'));
                }
                return StreamStep::NeedData;
            }
            proof {
                lemma_first_newline(self.buf@, i as int);
            }
            let mut line: Vec<char> = Vec::new();
            let mut k: usize = 0;
            while k < i
                invariant
                    k <= i < self.buf.len(),
                    line@ == self.buf@.take(k as int),
                decreases i - k,
            {
                line.push(self.buf[k]);
                proof {
                    assert(self.buf@.take(k + 1) =~= self.buf@.take(k as int).push(self.buf@[k as int]));
                }
                k = k + 1;
            }
            let mut rest: Vec<char> = Vec::new();
            let mut q: usize = i + 1;
            while q < self.buf.len()
                invariant
                    i < q <= self.buf.len(),
                    rest@ == self.buf@.subrange(i + 1, q as int),
                decreases self.buf.len() - q,
            {
                rest.push(self.buf[q]);
                proof {
                    assert(self.buf@.subrange(i + 1, q + 1) =~= self.buf@.subrange(i + 1, q as int).push(self.buf@[q as int]));
                }
                q = q + 1;
            }
            proof {
                assert(rest@ =~= self.buf@.skip(i + 1));
            }
            let ls = string_from_chars(&line);
            let kind = classify_line(ls.as_str());
            self.buf = rest;
            match kind {
                SseLine::Skip => {},
                SseLine::Done => {
                    self.ended = true;
                    return StreamStep::Done;
                },
                SseLine::Payload(p) => {
                    return StreamStep::Payload(p);
                },
            }
        }
    }

    /// Takes a parsed data chunk: a usage it carries becomes the stream's usage, and the
    /// piece it yields, if any, comes back (see `chunk_piece`).
    pub fn absorb_chunk(&mut self, chunk: &ChunkFields) -> (r: Option<StreamDelta>)
        ensures
            final(self).buffered() == old(self).buffered(),
            final(self).is_ended() == old(self).is_ended(),
            final(self).reported() == match chunk.usage {
                Some(f) => Some(crate::events::usage_of(f)),
                None => old(self).reported(),
            },
            match r {
                Some(x) => chunk_piece(chunk.choices@) == Some(delta_view(x)),
                None => chunk_piece(chunk.choices@) is None,
            },
    {
        match &chunk.usage {
            Some(f) => {
                self.usage = Some(parse_usage(f));
            },
            None => {},
        }
        chunk_delta(chunk)
    }

    /// Hands the reported usage over, leaving none behind.
    pub fn take_usage(&mut self) -> (r: Option<UsageCounts>)
        ensures
            r == old(self).reported(),
            final(self).reported() is None,
            final(self).buffered() == old(self).buffered(),
            final(self).is_ended() == old(self).is_ended(),
    {
        let u = self.usage;
        self.usage = None;
        u
    }
}

} // verus!
