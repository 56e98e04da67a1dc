//! Tool outcomes, undo operations and the bounded history of undoable tool calls.
use vstd::prelude::*;

use crate::message::Message;
use crate::text::{decimal, join, join_strings, push_decimal};

verus! {

/// An operation that undoes a tool call: a description and the action that performs it.
pub struct InverseOp<F> {
    pub description: String,
    pub apply: F,
}

impl<F: Fn() -> Result<String, String>> InverseOp<F> {
    /// The action of this operation.
    pub open spec fn action(&self) -> F {
        self.apply
    }

    /// The description of this operation.
    pub open spec fn desc(&self) -> String {
        self.description
    }

    /// An operation with the given description and action.
    pub fn new(description: String, apply: F) -> (op: Self)
        ensures
            op.desc() == description,
            op.description == description,
            op.action() == apply,
    {
        InverseOp { description, apply }
    }

    /// Runs the action and hands back what it returned.
    pub fn apply(&self) -> (r: Result<String, String>)
        requires
            call_requires(self.action(), ()),
        ensures
            call_ensures(self.action(), (), r),
    {
        (self.apply)()
    }
}

/// What a tool call produced.
pub struct ToolOutcome<F> {
    /// Summary shown to the user and to the model.
    pub summary: String,
    /// How to undo the call (`None` when it cannot be undone).
    pub inverse: Option<InverseOp<F>>,
    /// Whether the agent loop should roll the messages back after this round.
    pub rollback: bool,
    /// An approval session id, when the call awaits the user's approval.
    pub approval_pending: Option<String>,
    /// Messages to inject into the conversation after the call.
    pub inject_messages: Vec<Message>,
    /// Whether the rollback waits for the next round.
    pub defer_rollback: bool,
}

impl<F> ToolOutcome<F> {
    /// A plain successful outcome with the given summary and nothing else.
    pub fn new(summary: &str) -> (o: Self)
        ensures
            o.summary@ == summary@,
            o.inverse is None,
            !o.rollback,
            o.approval_pending is None,
            o.inject_messages@.len() == 0,
            !o.defer_rollback,
    {
        ToolOutcome {
            summary: summary.to_owned(),
            inverse: None,
            rollback: false,
            approval_pending: None,
            inject_messages: Vec::new(),
            defer_rollback: false,
        }
    }
}

/// The history of undoable tool calls: (tool name, undo operation), oldest first, holding
/// at most `max_len` entries (at least one after a push).
pub struct ToolHistory<F> {
    entries: Vec<(String, InverseOp<F>)>,
    max_len: usize,
}

/// Whether pushing onto a history of `len` entries with the capacity `max` first drops
/// the oldest entry.
pub open spec fn drops_oldest(len: nat, max: nat) -> bool {
    len >= max && len > 0
}

/// The summary of a successful undo of the tool `name`.
pub open spec fn undo_summary(name: Seq<char>, result: Seq<char>) -> Seq<char> {
    "[UNDO] "@ + name + ": "@ + result
}

/// The error reported when there is nothing to undo.
pub open spec fn nothing_to_undo() -> Seq<char> {
    "没有可撤销的操作"@
}

impl<F: Fn() -> Result<String, String>> ToolHistory<F> {
    /// The entries, oldest first.
    pub closed spec fn items(&self) -> Seq<(String, InverseOp<F>)> {
        self.entries@
    }

    /// The capacity.
    pub closed spec fn capacity(&self) -> nat {
        self.max_len as nat
    }

    /// An empty history that keeps at most `max_len` entries.
    pub fn new(max_len: usize) -> (h: Self)
        ensures
            h.items().len() == 0,
            h.capacity() == max_len,
    {
        ToolHistory { entries: Vec::new(), max_len }
    }

    /// Records an undoable call; when the history is full, the oldest entry is dropped.
    pub fn push(&mut self, tool_name: &str, inverse: InverseOp<F>)
        ensures
            final(self).capacity() == old(self).capacity(),
            final(self).items().len() == if drops_oldest(old(self).items().len(), old(self).capacity()) {
                old(self).items().len()
            } else {
                old(self).items().len() + 1
            },
            final(self).items().last().0@ == tool_name@,
            final(self).items().last().1 == inverse,
            forall|k: int|
                0 <= k < final(self).items().len() - 1 ==> #[trigger] final(self).items()[k] == if drops_oldest(
                    old(self).items().len(),
                    old(self).capacity(),
                ) {
                    old(self).items()[k + 1]
                } else {
                    old(self).items()[k]
                },
    {
        let ghost old_items = self.entries@;
        if self.entries.len() >= self.max_len && self.entries.len() > 0 {
            self.entries.remove(0);
        }
        let name = tool_name.to_owned();
        self.entries.push((name, inverse));
    }

    /// Undoes the most recent call: its entry leaves the history, its action runs, and the
    /// summary "[UNDO] {name}: {result}" comes back; an error of the action comes back as it
    /// is. With no entry, the history stays empty and an error says there is nothing to undo.
    pub fn undo(&mut self) -> (r: Result<String, String>)
        requires
            forall|k: int|
                0 <= k < old(self).items().len() ==> call_requires(
                    (#[trigger] old(self).items()[k]).1.action(),
                    (),
                ),
        ensures
            final(self).capacity() == old(self).capacity(),
            old(self).items().len() == 0 ==> final(self).items().len() == 0 && r is Err && r->Err_0@
                == nothing_to_undo(),
            old(self).items().len() > 0 ==> {
                let last = old(self).items().last();
                &&& final(self).items() == old(self).items().drop_last()
                &&& exists|res: Result<String, String>|
                    call_ensures(last.1.action(), (), res) && match res {
                        Ok(s) => r is Ok && r->Ok_0@ == undo_summary(last.0@, s@),
                        Err(e) => r == Err::<String, String>(e),
                    }
            },
    {
        match self.entries.pop() {
            None => Err(String::from_str("没有可撤销的操作")),
            Some((tool_name, inverse)) => {
                proof {
                    assert(old(self).items().last() == (tool_name, inverse));
                    assert(self.entries@ =~= old(self).items().drop_last());
                }
                let res = inverse.apply();
                match res {
                    Ok(s) => {
                        let mut out = String::from_str("[UNDO] ");
                        out.append(tool_name.as_str());
                        out.append(": ");
                        out.append(s.as_str());
                        Ok(out)
                    },
                    Err(e) => Err(e),
                }
            },
        }
    }

    /// Whether there is something to undo.
    pub fn can_undo(&self) -> (b: bool)
        ensures
            b == (self.items().len() > 0),
    {
        self.entries.len() > 0
    }

    /// The entries, oldest first.
    pub fn entries(&self) -> (r: &Vec<(String, InverseOp<F>)>)
        ensures
            r@ == self.items(),
    {
        &self.entries
    }
}

/// One line of the list of undoable calls: "{n}. [{name}] {description}".
pub open spec fn listing_line(n: nat, name: Seq<char>, desc: Seq<char>) -> Seq<char> {
    decimal(n) + ". ["@ + name + "] "@ + desc
}

/// The list of undoable calls, most recent first, each numbered by its place in the history
/// (oldest 1), or a note that there is none.
pub open spec fn listing_text(items: Seq<(Seq<char>, Seq<char>)>) -> Seq<char> {
    let n = items.len();
    if n == 0 {
        "regret: 当前无可撤销的操作。"@
    } else {
        "regret: "@ + decimal(n) + " 条可撤销操作（最近操作在前）:\n"@ + join(
            Seq::new(n, |j: int| listing_line((n - j) as nat, items[n - 1 - j].0, items[n - 1 - j].1)),
            "\n"@,
        )
    }
}

impl<F: Fn() -> Result<String, String>> ToolHistory<F> {
    /// The names and descriptions of the entries, oldest first.
    pub open spec fn described(&self) -> Seq<(Seq<char>, Seq<char>)> {
        self.items().map_values(|e: (String, InverseOp<F>)| (e.0@, e.1.description@))
    }

    /// The list of undoable calls shown by `regret` (see `listing_text`).
    pub fn listing(&self) -> (r: String)
        ensures
            r@ == listing_text(self.described()),
    {
        let n = self.entries.len();
        let ghost d = self.described();
        if n == 0 {
            return String::from_str("regret: 当前无可撤销的操作。");
        }
        let mut lines: Vec<String> = Vec::new();
        let mut j: usize = 0;
        while j < n
            invariant
                j <= n == self.entries@.len() == d.len(),
                d == self.described(),
                lines@.map_values(|l: String| l@) == Seq::new(
                    j as nat,
                    |q: int| listing_line((n - q) as nat, d[n - 1 - q].0, d[n - 1 - q].1),
                ),
            decreases n - j,
        {
            let k = n - 1 - j;
            let mut line = String::new();
            push_decimal(&mut line, k + 1);
            line.append(". [");
            line.append(self.entries[k].0.as_str());
            line.append("] ");
            line.append(self.entries[k].1.description.as_str());
            let ghost before = lines@.map_values(|l: String| l@);
            lines.push(line);
            proof {
                assert(d[k as int] == (self.entries@[k as int].0@, self.entries@[k as int].1.description@));
                assert(lines@.last()@ == listing_line((n - j) as nat, d[n - 1 - j].0, d[n - 1 - j].1));
                assert(lines@.map_values(|l: String| l@) =~= before.push(lines@.last()@));
                assert(lines@.map_values(|l: String| l@) =~= Seq::new(
                    (j + 1) as nat,
                    |q: int| listing_line((n - q) as nat, d[n - 1 - q].0, d[n - 1 - q].1),
                ));
            }
            j = j + 1;
        }
        let mut r = String::from_str("regret: ");
        push_decimal(&mut r, n);
        r.append(" 条可撤销操作（最近操作在前）:\n");
        let body = join_strings(&lines, "\n");
        r.append(body.as_str());
        r
    }
}

/// A history never holds more than its capacity (or one entry, for a capacity of zero):
/// a push onto a history within that bound stays within it.
pub proof fn lemma_push_stays_bounded(len: nat, cap: nat)
    requires
        len <= if cap > 0 {
            cap
        } else {
            1
        },
    ensures
        (if drops_oldest(len, cap) {
            len
        } else {
            len + 1
        }) <= if cap > 0 {
            cap
        } else {
            1
        },
{
}

/// Last in, first out: after pushing an entry onto a history that drops nothing, the entry
/// that `undo` takes is the pushed one, and what stays is the history from before the push.
pub proof fn lemma_undo_takes_last_push<E>(items: Seq<E>, cap: nat, e: E)
    requires
        !drops_oldest(items.len(), cap),
    ensures
        items.push(e).last() == e,
        items.push(e).drop_last() == items,
{
    assert(items.push(e).drop_last() =~= items);
}

} // verus!
