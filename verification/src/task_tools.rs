//! The tools that work on the task queue and the checkpoint stack: what each does to them
//! and what it answers.
use vstd::prelude::*;

use crate::checkpoint_stack::{checkpoint_listing, first_index, missing_checkpoint_message, rolled_back, CheckpointStack};
use crate::history::ToolOutcome;
use crate::message::{opt_str_view, Message, MessageView};
use crate::queue::{added, QueueView, TaskQueue};

verus! {

/// A string argument, or the default when it is missing.
pub open spec fn arg_or(a: Option<Seq<char>>, default: Seq<char>) -> Seq<char> {
    match a {
        Some(s) => s,
        None => default,
    }
}

fn arg_value(a: Option<&str>, default: &str) -> (r: String)
    ensures
        r@ == arg_or(
            match a {
                Some(s) => Some(s@),
                None => None,
            },
            default@,
        ),
{
    match a {
        Some(s) => s.to_owned(),
        None => default.to_owned(),
    }
}

pub open spec fn opt_arg(a: Option<&str>) -> Option<Seq<char>> {
    match a {
        Some(s) => Some(s@),
        None => None,
    }
}

/// The answer of a tool call that only reports.
fn plain_outcome<F>(summary: String) -> (o: ToolOutcome<F>)
    ensures
        o.summary == summary,
        o.inverse is None,
        !o.rollback,
        o.approval_pending is None,
        o.inject_messages@.len() == 0,
        !o.defer_rollback,
{
    ToolOutcome {
        summary,
        inverse: None,
        rollback: false,
        approval_pending: None,
        inject_messages: Vec::new(),
        defer_rollback: false,
    }
}

/// `add_task`: adds the task (id "unknown" and an empty description when missing) and
/// reports "[添加任务] {id}: {description}".
pub fn add_task<F>(queue: &mut TaskQueue, id: Option<&str>, description: Option<&str>) -> (o: ToolOutcome<F>)
    ensures
        final(queue)@ == added(old(queue)@, arg_or(opt_arg(id), "unknown"@), arg_or(opt_arg(description), ""@)),
        o.summary@ == "[添加任务] "@ + arg_or(opt_arg(id), "unknown"@) + ": "@ + arg_or(
            opt_arg(description),
            ""@,
        ),
        o.inverse is None && !o.rollback && !o.defer_rollback && o.inject_messages@.len() == 0,
{
    let id = arg_value(id, "unknown");
    let description = arg_value(description, "");
    let mut summary = String::from_str("[添加任务] ");
    summary.append(id.as_str());
    summary.append(": ");
    summary.append(description.as_str());
    queue.add(id, description);
    plain_outcome(summary)
}

/// `start_task`: takes the task out of the pending tasks and makes it the active one,
/// reporting whether tasks remain; an unknown task is reported as an error (the queue then
/// only loses the id from its order).
pub fn start_task<F>(queue: &mut TaskQueue, task_id: Option<&str>, description: Option<&str>) -> (o:
    ToolOutcome<F>)
    ensures
        ({
            let id = arg_or(opt_arg(task_id), "unknown"@);
            let desc = arg_or(opt_arg(description), ""@);
            let after = QueueView {
                tasks: old(queue)@.tasks.remove(id),
                order: crate::queue::without(old(queue)@.order, id),
                ..old(queue)@
            };
            if old(queue)@.tasks.contains_key(id) {
                &&& final(queue)@ == QueueView { active: Some((id, desc)), ..after }
                &&& o.summary@ == "[开始任务] "@ + id + ": "@ + desc + " ("@ + (if after.tasks.is_empty() {
                    "队列已空"@
                } else {
                    "队列中还有任务"@
                }) + ")"@
            } else {
                &&& final(queue)@ == after
                &&& o.summary@ == "[start_task] 错误: 队列中不存在任务 \""@ + id
                    + "\"。可能已被移除或从未添加。可用 add_task 先添加。"@
            }
        }),
        o.inverse is None && !o.rollback && !o.defer_rollback && o.inject_messages@.len() == 0,
{
    let id = arg_value(task_id, "unknown");
    let desc = arg_value(description, "");
    let removed = queue.remove(id.as_str());
    let empty = queue.is_empty();
    match removed {
        Some(_) => {
            queue.set_active(id.as_str(), desc.as_str());
            let mut summary = String::from_str("[开始任务] ");
            summary.append(id.as_str());
            summary.append(": ");
            summary.append(desc.as_str());
            summary.append(" (");
            if empty {
                summary.append("队列已空");
            } else {
                summary.append("队列中还有任务");
            }
            summary.append(")");
            plain_outcome(summary)
        },
        None => {
            let mut summary = String::from_str("[start_task] 错误: 队列中不存在任务 \"");
            summary.append(id.as_str());
            summary.append("\"。可能已被移除或从未添加。可用 add_task 先添加。");
            plain_outcome(summary)
        },
    }
}

/// The instruction injected after a task is completed.
pub open spec fn task_done_instruction(id: Seq<char>) -> Seq<char> {
    "任务 "@ + id + " 已完成。只更新 CONTEXT.md，记录完成进度，输出一个对本轮已完成工作的简要总结，然后停下。"@
}

/// `end_task`: completes the task, reports "[完成任务] {id}: {summary}", asks for a
/// deferred rollback and injects the instruction to update CONTEXT.md.
pub fn end_task<F>(queue: &mut TaskQueue, task_id: Option<&str>, summary: Option<&str>) -> (o: ToolOutcome<F>)
    ensures
        o.summary@ == "[完成任务] "@ + arg_or(opt_arg(task_id), "unknown"@) + ": "@ + arg_or(
            opt_arg(summary),
            ""@,
        ),
        o.rollback && o.defer_rollback && o.inverse is None && o.approval_pending is None,
        o.inject_messages@.len() == 1,
        o.inject_messages@[0]@ == crate::message::plain_view(
            "user"@,
            task_done_instruction(arg_or(opt_arg(task_id), "unknown"@)),
            Some("orch"@),
        ),
{
    let id = arg_value(task_id, "unknown");
    let done = arg_value(summary, "");
    queue.complete_task(id.as_str());
    let mut msg = String::from_str("[完成任务] ");
    msg.append(id.as_str());
    msg.append(": ");
    msg.append(done.as_str());
    let mut text = String::from_str("任务 ");
    text.append(id.as_str());
    text.append(" 已完成。只更新 CONTEXT.md，记录完成进度，输出一个对本轮已完成工作的简要总结，然后停下。");
    let mut inject: Vec<Message> = Vec::new();
    inject.push(Message::new_user("orch", text.as_str()));
    ToolOutcome {
        summary: msg,
        inverse: None,
        rollback: true,
        approval_pending: None,
        inject_messages: inject,
        defer_rollback: true,
    }
}

/// `checkpoint`: pushes a checkpoint unless one with that id exists (id "unknown" and an
/// empty description when missing).
pub fn create_checkpoint<F>(stack: &mut CheckpointStack, id: Option<&str>, description: Option<&str>) -> (o:
    ToolOutcome<F>)
    ensures
        ({
            let i = arg_or(opt_arg(id), "unknown"@);
            let d = arg_or(opt_arg(description), ""@);
            if first_index(old(stack)@, i) is Some {
                &&& final(stack)@ == old(stack)@
                &&& o.summary@ == "❌ 检查点 \""@ + i + "\" 已存在，请使用不同的 ID"@
            } else {
                &&& final(stack)@ == old(stack)@.push((i, d))
                &&& o.summary@ == "✅ 已创建检查点 "@ + i + ": "@ + d
            }
        }),
        o.inverse is None && !o.rollback && !o.defer_rollback && o.inject_messages@.len() == 0,
{
    let i = arg_value(id, "unknown");
    let d = arg_value(description, "");
    if stack.contains(i.as_str()) {
        let mut summary = String::from_str("❌ 检查点 \"");
        summary.append(i.as_str());
        summary.append("\" 已存在，请使用不同的 ID");
        return plain_outcome(summary);
    }
    let mut summary = String::from_str("✅ 已创建检查点 ");
    summary.append(i.as_str());
    summary.append(": ");
    summary.append(d.as_str());
    stack.push(i, d);
    plain_outcome(summary)
}

/// The instruction injected after a rollback.
pub open spec fn rollback_instruction(id: Seq<char>) -> Seq<char> {
    "已回滚到检查点 `"@ + id
        + "`。请更新 CONTEXT.md 记录已完成的工作进度，确保反映当前状态。放下当前任务，然后输出对本轮工作的简要总结。"@
}

/// `rollback`: rolls the stack back to the checkpoint (an empty id when missing); a missing
/// checkpoint is reported, otherwise a deferred rollback is asked for with the instruction
/// to update CONTEXT.md.
pub fn rollback_checkpoint<F>(stack: &mut CheckpointStack, checkpoint_id: Option<&str>) -> (o: ToolOutcome<F>)
    ensures
        ({
            let id = arg_or(opt_arg(checkpoint_id), ""@);
            &&& final(stack)@ == rolled_back(old(stack)@, id)
            &&& if first_index(old(stack)@, id) is Some {
                &&& o.summary@ == "回滚中"@
                &&& o.rollback && o.defer_rollback
                &&& o.inject_messages@.len() == 1
                &&& o.inject_messages@[0]@ == crate::message::plain_view(
                    "user"@,
                    rollback_instruction(id),
                    Some("orch"@),
                )
            } else {
                &&& o.summary@ == "❌ 回滚失败："@ + missing_checkpoint_message(id)
                &&& !o.rollback && !o.defer_rollback && o.inject_messages@.len() == 0
            }
        }),
        o.inverse is None,
{
    let id = arg_value(checkpoint_id, "");
    match stack.rollback_to(id.as_str()) {
        Err(e) => {
            let mut summary = String::from_str("❌ 回滚失败：");
            summary.append(e.as_str());
            plain_outcome(summary)
        },
        Ok(()) => {
            let mut text = String::from_str("已回滚到检查点 `");
            text.append(id.as_str());
            text.append(
                "`。请更新 CONTEXT.md 记录已完成的工作进度，确保反映当前状态。放下当前任务，然后输出对本轮工作的简要总结。",
            );
            let mut inject: Vec<Message> = Vec::new();
            inject.push(Message::new_user("orch", text.as_str()));
            ToolOutcome {
                summary: String::from_str("回滚中"),
                inverse: None,
                rollback: true,
                approval_pending: None,
                inject_messages: inject,
                defer_rollback: true,
            }
        },
    }
}

/// `list_checkpoints`: the listing of the stack under a heading.
pub fn list_checkpoints<F>(stack: &CheckpointStack) -> (o: ToolOutcome<F>)
    ensures
        o.summary@ == "📋 当前检查点（可在 rollback 中使用加粗的 ID）：\n"@ + checkpoint_listing(stack@),
        o.inverse is None && !o.rollback && !o.defer_rollback && o.inject_messages@.len() == 0,
{
    let formatted = stack.format_for_context();
    let mut summary = String::from_str("📋 当前检查点（可在 rollback 中使用加粗的 ID）：\n");
    summary.append(formatted.as_str());
    plain_outcome(summary)
}

} // verus!
