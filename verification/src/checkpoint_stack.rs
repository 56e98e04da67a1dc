//! The checkpoint stack: `push` adds a checkpoint, `rollback_to` goes back to one
//! (keeping it and dropping every later one).
use vstd::prelude::*;

use crate::message::{Message, MessageView, ToolCallValue, ToolCallView, msgs_view, string_is};
use crate::text::{decimal, join, join_strings, push_decimal};

verus! {

/// A checkpoint: its id and a short description.
pub struct CheckpointItem {
    pub id: String,
    pub description: String,
}

impl Clone for CheckpointItem {
    fn clone(&self) -> (res: Self)
        ensures
            res == *self,
    {
        CheckpointItem { id: self.id.clone(), description: self.description.clone() }
    }
}

/// The value of a checkpoint: (id, description).
pub open spec fn item_view(c: CheckpointItem) -> (Seq<char>, Seq<char>) {
    (c.id@, c.description@)
}

pub open spec fn items_view(s: Seq<CheckpointItem>) -> Seq<(Seq<char>, Seq<char>)> {
    s.map_values(|c: CheckpointItem| item_view(c))
}

/// The stack of checkpoints, oldest first.
pub struct CheckpointStack {
    items: Vec<CheckpointItem>,
}

impl View for CheckpointStack {
    type V = Seq<(Seq<char>, Seq<char>)>;

    closed spec fn view(&self) -> Seq<(Seq<char>, Seq<char>)> {
        items_view(self.items@)
    }
}

/// The position of the first checkpoint with the id `id`.
pub open spec fn first_index(s: Seq<(Seq<char>, Seq<char>)>, id: Seq<char>) -> Option<int>
    decreases s.len(),
{
    if s.len() == 0 {
        None
    } else {
        match first_index(s.drop_last(), id) {
            Some(p) => Some(p),
            None => if s.last().0 == id {
                Some(s.len() - 1)
            } else {
                None
            },
        }
    }
}

/// The stack after rolling back to `id`: everything up to and including the first
/// checkpoint `id`; unchanged when there is none.
pub open spec fn rolled_back(s: Seq<(Seq<char>, Seq<char>)>, id: Seq<char>) -> Seq<
    (Seq<char>, Seq<char>),
> {
    match first_index(s, id) {
        Some(p) => s.take(p + 1),
        None => s,
    }
}

/// The error reported when the checkpoint `id` does not exist.
pub open spec fn missing_checkpoint_message(id: Seq<char>) -> Seq<char> {
    "检查点 \""@ + id + "\" 不存在"@
}

/// One line of the listing: "{n}. **{id}**: {description}".
pub open spec fn checkpoint_line(n: nat, c: (Seq<char>, Seq<char>)) -> Seq<char> {
    decimal(n) + ". **"@ + c.0 + "**: "@ + c.1
}

pub open spec fn checkpoint_lines(s: Seq<(Seq<char>, Seq<char>)>) -> Seq<Seq<char>> {
    Seq::new(s.len(), |i: int| checkpoint_line((i + 1) as nat, s[i]))
}

/// The Markdown listing of the stack.
pub open spec fn checkpoint_listing(s: Seq<(Seq<char>, Seq<char>)>) -> Seq<char> {
    if s.len() == 0 {
        "_暂无检查点_"@
    } else {
        join(checkpoint_lines(s), "\n"@)
    }
}

proof fn lemma_first_index_bounds(s: Seq<(Seq<char>, Seq<char>)>, id: Seq<char>)
    ensures
        match first_index(s, id) {
            Some(p) => 0 <= p < s.len() && s[p].0 == id && forall|q: int|
                0 <= q < p ==> (#[trigger] s[q]).0 != id,
            None => forall|q: int| 0 <= q < s.len() ==> (#[trigger] s[q]).0 != id,
        },
    decreases s.len(),
{
    if s.len() > 0 {
        lemma_first_index_bounds(s.drop_last(), id);
        assert(forall|q: int| 0 <= q < s.len() - 1 ==> s.drop_last()[q] == s[q]);
    }
}

proof fn lemma_first_index_is(s: Seq<(Seq<char>, Seq<char>)>, id: Seq<char>, p: int)
    requires
        0 <= p < s.len(),
        s[p].0 == id,
        forall|q: int| 0 <= q < p ==> (#[trigger] s[q]).0 != id,
    ensures
        first_index(s, id) == Some(p),
{
    lemma_first_index_bounds(s, id);
}

proof fn lemma_first_index_none(s: Seq<(Seq<char>, Seq<char>)>, id: Seq<char>)
    requires
        forall|q: int| 0 <= q < s.len() ==> (#[trigger] s[q]).0 != id,
    ensures
        first_index(s, id) is None,
{
    lemma_first_index_bounds(s, id);
}

/// Rolling back to a checkpoint that exists leaves it on top, with every checkpoint below it
/// as it was.
pub proof fn lemma_rollback_keeps_target(s: Seq<(Seq<char>, Seq<char>)>, id: Seq<char>)
    requires
        first_index(s, id) is Some,
    ensures
        rolled_back(s, id).len() > 0,
        rolled_back(s, id).last().0 == id,
        rolled_back(s, id) == s.take(rolled_back(s, id).len() as int),
{
    lemma_first_index_bounds(s, id);
}

/// Rolling back to the same checkpoint a second time changes nothing more.
pub proof fn lemma_rollback_idempotent(s: Seq<(Seq<char>, Seq<char>)>, id: Seq<char>)
    ensures
        rolled_back(rolled_back(s, id), id) == rolled_back(s, id),
{
    lemma_first_index_bounds(s, id);
    match first_index(s, id) {
        Some(p) => {
            let t = s.take(p + 1);
            assert forall|q: int| 0 <= q < p implies (#[trigger] t[q]).0 != id by {
                assert(t[q] == s[q]);
            }
            lemma_first_index_is(t, id, p);
            assert(t.take(p + 1) =~= t);
        },
        None => {},
    }
}

/// A checkpoint pushed under a new id and then rolled back to leaves the stack as the push
/// left it.
pub proof fn lemma_push_then_rollback(s: Seq<(Seq<char>, Seq<char>)>, id: Seq<char>, desc: Seq<char>)
    requires
        first_index(s, id) is None,
    ensures
        rolled_back(s.push((id, desc)), id) == s.push((id, desc)),
{
    lemma_first_index_bounds(s, id);
    let t = s.push((id, desc));
    assert forall|q: int| 0 <= q < s.len() implies (#[trigger] t[q]).0 != id by {
        assert(t[q] == s[q]);
    }
    lemma_first_index_is(t, id, s.len() as int);
    assert(t.take(s.len() as int + 1) =~= t);
}

impl CheckpointStack {
    /// An empty stack.
    pub fn new() -> (s: Self)
        ensures
            s@ == Seq::<(Seq<char>, Seq<char>)>::empty(),
    {
        CheckpointStack { items: Vec::new() }
    }

    /// Removes every checkpoint.
    pub fn clear(&mut self)
        ensures
            final(self)@ == Seq::<(Seq<char>, Seq<char>)>::empty(),
    {
        self.items.clear();
        proof {
            assert(items_view(self.items@) =~= Seq::<(Seq<char>, Seq<char>)>::empty());
        }
    }

    /// Pushes a checkpoint on top of the stack.
    pub fn push(&mut self, id: String, description: String)
        ensures
            final(self)@ == old(self)@.push((id@, description@)),
    {
        let ghost old_items = self.items@;
        self.items.push(CheckpointItem { id, description });
        proof {
            assert(items_view(self.items@) =~= items_view(old_items).push((id@, description@)));
        }
    }

    /// Whether a checkpoint has the id `id`.
    pub fn contains(&self, id: &str) -> (b: bool)
        ensures
            b == first_index(self@, id@) is Some,
    {
        let target = id.to_owned();
        let mut i: usize = 0;
        while i < self.items.len()
            invariant
                i <= self.items.len(),
                target@ == id@,
                forall|q: int| 0 <= q < i ==> (#[trigger] self@[q]).0 != id@,
            decreases self.items.len() - i,
        {
            proof {
                assert(self@[i as int] == item_view(self.items@[i as int]));
            }
            if self.items[i].id == target {
                proof {
                    lemma_first_index_bounds(self@, id@);
                }
                return true;
            }
            i = i + 1;
        }
        proof {
            lemma_first_index_none(self@, id@);
        }
        false
    }

    /// The number of checkpoints.
    pub fn len(&self) -> (n: usize)
        ensures
            n == self@.len(),
    {
        self.items.len()
    }

    /// Whether the stack holds no checkpoint.
    pub fn is_empty(&self) -> (b: bool)
        ensures
            b == (self@.len() == 0),
    {
        self.items.len() == 0
    }

    /// The checkpoints, oldest first.
    pub fn list(&self) -> (r: Vec<CheckpointItem>)
        ensures
            items_view(r@) == self@,
    {
        self.items.clone()
    }

    /// Rolls back to the checkpoint `id`: it and every earlier checkpoint stay, every later
    /// one is dropped. When no checkpoint has that id, the stack is unchanged and an error
    /// names it.
    pub fn rollback_to(&mut self, id: &str) -> (r: Result<(), String>)
        ensures
            final(self)@ == rolled_back(old(self)@, id@),
            r is Ok <==> first_index(old(self)@, id@) is Some,
            match r {
                Ok(_) => true,
                Err(e) => e@ == missing_checkpoint_message(id@),
            },
    {
        let ghost v = self@;
        let target = id.to_owned();
        let mut i: usize = 0;
        while i < self.items.len()
            invariant
                i <= self.items.len(),
                v == items_view(self.items@),
                v == old(self)@,
                target@ == id@,
                forall|q: int| 0 <= q < i ==> (#[trigger] v[q]).0 != id@,
            decreases self.items.len() - i,
        {
            if self.items[i].id == target {
                proof {
                    lemma_first_index_is(v, id@, i as int);
                }
                self.items.truncate(i + 1);
                proof {
                    assert(items_view(self.items@) =~= v.take(i + 1));
                }
                return Ok(());
            }
            i = i + 1;
        }
        proof {
            lemma_first_index_none(v, id@);
        }
        let mut msg = String::from_str("检查点 \"");
        msg.append(id);
        msg.append("\" 不存在");
        Err(msg)
    }

    /// The stack as a Markdown list ("1. **id**: description", one per line), or a note
    /// that there is no checkpoint.
    pub fn format_for_context(&self) -> (r: String)
        ensures
            r@ == checkpoint_listing(self@),
    {
        if self.items.len() == 0 {
            return String::from_str("_暂无检查点_");
        }
        let ghost v = self@;
        let mut parts: Vec<String> = Vec::new();
        let mut i: usize = 0;
        while i < self.items.len()
            invariant
                i <= self.items.len(),
                v == items_view(self.items@),
                parts@.len() == i,
                forall|q: int|
                    0 <= q < i ==> (#[trigger] parts@[q])@ == checkpoint_line((q + 1) as nat, v[q]),
            decreases self.items.len() - i,
        {
            let mut line = String::new();
            push_decimal(&mut line, i + 1);
            line.append(". **");
            line.append(self.items[i].id.as_str());
            line.append("**: ");
            line.append(self.items[i].description.as_str());
            parts.push(line);
            i = i + 1;
        }
        proof {
            assert(parts@.map_values(|p: String| p@) =~= checkpoint_lines(v));
        }
        join_strings(&parts, "\n")
    }

    /// Rebuilds a stack by replaying, in order, every `checkpoint` and `rollback` call found
    /// in a history (calls whose arguments are not valid JSON are skipped).
    pub fn rebuild_from_messages(messages: &Vec<Message>) -> (s: Self)
        ensures
            s@ == replay_messages(Seq::empty(), msgs_view(messages@)),
    {
        let ghost all = msgs_view(messages@);
        let mut stack = CheckpointStack::new();
        let mut i: usize = 0;
        while i < messages.len()
            invariant
                i <= messages.len(),
                all == msgs_view(messages@),
                stack@ == replay_messages(Seq::empty(), all.take(i as int)),
            decreases messages.len() - i,
        {
            proof {
                assert(all.take(i + 1).drop_last() =~= all.take(i as int));
                assert(all.take(i + 1).last() == messages@[i as int]@);
            }
            match &messages[i].tool_calls {
                Some(calls) => {
                    let mut j: usize = 0;
                    let ghost before = stack@;
                    let ghost cv = calls@.map_values(|t: ToolCallValue| t@);
                    while j < calls.len()
                        invariant
                            j <= calls.len(),
                            cv == calls@.map_values(|t: ToolCallValue| t@),
                            stack@ == replay_calls(before, cv.take(j as int)),
                        decreases calls.len() - j,
                    {
                        proof {
                            assert(cv.take(j + 1).drop_last() =~= cv.take(j as int));
                            assert(cv.take(j + 1).last() == calls@[j as int]@);
                        }
                        stack.replay_call(&calls[j]);
                        j = j + 1;
                    }
                    proof {
                        assert(cv.take(calls.len() as int) =~= cv);
                    }
                },
                None => {},
            }
            i = i + 1;
        }
        proof {
            assert(all.take(messages.len() as int) =~= all);
        }
        stack
    }

    fn replay_call(&mut self, tc: &ToolCallValue)
        ensures
            final(self)@ == replay_call_spec(old(self)@, tc@),
    {
        if string_is(&tc.function.name, "checkpoint") {
            let id = json_string_field(tc.function.arguments.as_str(), "id");
            match id {
                Some(idv) => {
                    let desc = json_string_field(tc.function.arguments.as_str(), "description");
                    let id_s = match idv {
                        Some(x) => x,
                        None => String::from_str("?"),
                    };
                    let desc_s = match desc {
                        Some(Some(x)) => x,
                        _ => String::from_str("?"),
                    };
                    self.push(id_s, desc_s);
                },
                None => {},
            }
        } else if string_is(&tc.function.name, "rollback") {
            let target = json_string_field(tc.function.arguments.as_str(), "checkpoint_id");
            match target {
                Some(t) => {
                    let t_s = match t {
                        Some(x) => x,
                        None => String::new(),
                    };
                    let _ = self.rollback_to(t_s.as_str());
                },
                None => {},
            }
        }
    }
}

/// What serde_json reads from the JSON text `text` for the key `key`: `None` when the text is
/// not valid JSON, `Some(None)` when it has no string under that key, else the string.
pub uninterp spec fn json_string_field_of(text: Seq<char>, key: Seq<char>) -> Option<
    Option<Seq<char>>,
>;

pub open spec fn opt_opt_view(o: Option<Option<String>>) -> Option<Option<Seq<char>>> {
    match o {
        Some(Some(s)) => Some(Some(s@)),
        Some(None) => Some(None),
        None => None,
    }
}

/// Parses `text` with `serde_json::from_str` into a `serde_json::Value` and reads the string
/// stored under `key` (`Value::get`, then `Value::as_str`). The contract only names the
/// result: it is a function of the text and the key.
#[verifier::external_body]
fn json_string_field(text: &str, key: &str) -> (r: Option<Option<String>>)
    ensures
        opt_opt_view(r) == json_string_field_of(text@, key@),
{
    match serde_json::from_str::<serde_json::Value>(text) {
        Ok(v) => Some(v.get(key).and_then(|x| x.as_str()).map(|x| x.to_string())),
        Err(_) => None,
    }
}

/// The effect of one call on the stack: a valid `checkpoint` call pushes its `id` and
/// `description` ("?" for a missing one); a valid `rollback` call rolls back to its
/// `checkpoint_id` (the empty id when missing); anything else leaves the stack alone.
pub open spec fn replay_call_spec(s: Seq<(Seq<char>, Seq<char>)>, tc: ToolCallView) -> Seq<
    (Seq<char>, Seq<char>),
> {
    if tc.name == "checkpoint"@ {
        match json_string_field_of(tc.arguments, "id"@) {
            Some(idv) => {
                let id = match idv {
                    Some(x) => x,
                    None => "?"@,
                };
                let desc = match json_string_field_of(tc.arguments, "description"@) {
                    Some(Some(x)) => x,
                    _ => "?"@,
                };
                s.push((id, desc))
            },
            None => s,
        }
    } else if tc.name == "rollback"@ {
        match json_string_field_of(tc.arguments, "checkpoint_id"@) {
            Some(t) => rolled_back(
                s,
                match t {
                    Some(x) => x,
                    None => Seq::empty(),
                },
            ),
            None => s,
        }
    } else {
        s
    }
}

pub open spec fn replay_calls(s: Seq<(Seq<char>, Seq<char>)>, calls: Seq<ToolCallView>) -> Seq<
    (Seq<char>, Seq<char>),
>
    decreases calls.len(),
{
    if calls.len() == 0 {
        s
    } else {
        replay_call_spec(replay_calls(s, calls.drop_last()), calls.last())
    }
}

/// The stack obtained from `s` by replaying the calls of every message of `ms` in order.
pub open spec fn replay_messages(s: Seq<(Seq<char>, Seq<char>)>, ms: Seq<MessageView>) -> Seq<
    (Seq<char>, Seq<char>),
>
    decreases ms.len(),
{
    if ms.len() == 0 {
        s
    } else {
        let before = replay_messages(s, ms.drop_last());
        match ms.last().tool_calls {
            Some(calls) => replay_calls(before, calls),
            None => before,
        }
    }
}

/// Rebuilding a stack replays each call as it was made live: a `checkpoint` call whose
/// arguments hold the id `i` and the description `d` pushes `(i, d)` (what `push` does), and a
/// `rollback` call whose arguments hold the `checkpoint_id` `t` rolls back to `t` (what
/// `rollback_to(t)` does), so a history that ends with such a call rebuilds to the stack of
/// the history before it changed in that way.
pub proof fn lemma_replay_as_live(
    s: Seq<(Seq<char>, Seq<char>)>,
    ms: Seq<MessageView>,
    m: MessageView,
    tc: ToolCallView,
    i: Seq<char>,
    d: Seq<char>,
    t: Seq<char>,
)
    requires
        m.tool_calls == Some(seq![tc]),
    ensures
        (tc.name == "checkpoint"@ && json_string_field_of(tc.arguments, "id"@) == Some(Some(i))
            && json_string_field_of(tc.arguments, "description"@) == Some(Some(d))) ==> {
            &&& replay_call_spec(s, tc) == s.push((i, d))
            &&& replay_messages(s, ms.push(m)) == replay_messages(s, ms).push((i, d))
        },
        (tc.name == "rollback"@ && json_string_field_of(tc.arguments, "checkpoint_id"@) == Some(
            Some(t),
        )) ==> {
            &&& replay_call_spec(s, tc) == rolled_back(s, t)
            &&& replay_messages(s, ms.push(m)) == rolled_back(replay_messages(s, ms), t)
        },
{
    reveal_strlit("checkpoint");
    reveal_strlit("rollback");
    assert("checkpoint"@ != "rollback"@) by {
        assert("checkpoint"@[0] != "rollback"@[0]);
    }
    assert(ms.push(m).drop_last() =~= ms);
    assert(ms.push(m).last() == m);
    let calls = seq![tc];
    assert(calls.drop_last() =~= Seq::<ToolCallView>::empty());
    assert(calls.last() == tc);
    let before = replay_messages(s, ms);
    assert(replay_messages(s, ms.push(m)) == replay_calls(before, calls));
    assert(replay_calls(before, calls.drop_last()) == before);
    assert(replay_calls(before, calls) == replay_call_spec(before, tc));
}

} // verus!
