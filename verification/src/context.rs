//! Where a session keeps its context files, and the texts built from them.
use vstd::prelude::*;

use crate::message::{Message, plain_view};
use crate::text::{join, str_chars};

verus! {

/// `name` joined onto the path `base` as a Unix path is extended: an absolute `name`
/// replaces `base`; otherwise a `/` separates the two unless `base` is empty or already ends
/// with one.
pub open spec fn path_join(base: Seq<char>, name: Seq<char>) -> Seq<char> {
    if name.len() > 0 && name[0] == '/' {
        name
    } else if base.len() == 0 || base.last() == '/' {
        base + name
    } else {
        base + "/"@ + name
    }
}

/// Joins `name` onto the path `base`.
pub fn join_path(base: &str, name: &str) -> (r: String)
    ensures
        r@ == path_join(base@, name@),
{
    let bc = str_chars(base);
    let nc = str_chars(name);
    if nc.len() > 0 && nc[0] == '/' {
        return name.to_owned();
    }
    let mut r = base.to_owned();
    if !(bc.len() == 0 || bc[bc.len() - 1] == '/') {
        r.append("/");
    }
    r.append(name);
    r
}

/// The context directory of a session: `{root}/.silences/sessions/{id}`.
pub open spec fn session_dir_of(root: Seq<char>, session_id: Seq<char>) -> Seq<char> {
    path_join(path_join(path_join(root, ".silences"@), "sessions"@), session_id)
}

/// The context directory of the session `session_id` under the project root.
pub fn session_context_dir(project_root: &str, session_id: &str) -> (r: String)
    ensures
        r@ == session_dir_of(project_root@, session_id@),
{
    let a = join_path(project_root, ".silences");
    let b = join_path(a.as_str(), "sessions");
    join_path(b.as_str(), session_id)
}

/// The paths of a project context, with the files read from the session directory.
pub struct ProjectContext {
    /// The project root.
    pub root: String,
    /// The session's context directory (the root itself when there is no session).
    pub session_dir: String,
    /// SILENCES.md, the stable context, when it could be read.
    pub silences_md: Option<String>,
    /// CONTEXT.md, the progress notes, when it could be read.
    pub context_delta: Option<String>,
}

/// The project root (`.` when none is given) and the directory whose context files are read:
/// the session's directory, or the root itself when there is no session.
pub fn project_context_paths(project_root: Option<&str>, session_id: Option<&str>) -> (r: (
    String,
    String,
))
    ensures
        r.0@ == match project_root {
            Some(p) => p@,
            None => "."@,
        },
        r.1@ == match session_id {
            Some(id) => session_dir_of(r.0@, id@),
            None => r.0@,
        },
{
    let root = match project_root {
        Some(p) => p.to_owned(),
        None => {
            proof {
                reveal_strlit(".");
            }
            String::from_str(".")
        },
    };
    let dir = match session_id {
        Some(id) => session_context_dir(root.as_str(), id),
        None => root.clone(),
    };
    (root, dir)
}

/// The project context at the given paths, with the file contents that were read there.
pub fn load_project_context(
    project_root: Option<&str>,
    session_id: Option<&str>,
    silences_md: Option<String>,
    context_delta: Option<String>,
) -> (c: ProjectContext)
    ensures
        c.root@ == match project_root {
            Some(p) => p@,
            None => "."@,
        },
        c.session_dir@ == match session_id {
            Some(id) => session_dir_of(c.root@, id@),
            None => c.root@,
        },
        c.silences_md == silences_md,
        c.context_delta == context_delta,
{
    let (root, session_dir) = project_context_paths(project_root, session_id);
    ProjectContext { root, session_dir, silences_md, context_delta }
}

/// The parts of the warm-up text: the history summary when there is one, the user's message
/// and SILENCES.md.
pub open spec fn warmup_parts(history: Seq<char>, user: Seq<char>, silences: Seq<char>) -> Seq<
    Seq<char>,
> {
    if history.len() > 0 {
        seq![history, user, silences]
    } else {
        seq![user, silences]
    }
}

/// The text that warms the model's cache: the parts joined by blank lines.
pub fn build_warmup_text(history_text: &str, user_message: &str, silences_md: &str) -> (r: String)
    ensures
        r@ == join(warmup_parts(history_text@, user_message@, silences_md@), "\n\n"@),
{
    let mut r = String::new();
    let ghost parts = warmup_parts(history_text@, user_message@, silences_md@);
    if !history_text.is_empty() {
        r.append(history_text);
        r.append("\n\n");
    }
    r.append(user_message);
    r.append("\n\n");
    r.append(silences_md);
    proof {
        reveal_strlit("\n\n");
        let s = "\n\n"@;
        if history_text@.len() > 0 {
            assert(parts.drop_last().drop_last() =~= seq![history_text@]);
            assert(parts.drop_last() =~= seq![history_text@, user_message@]);
            assert(join(seq![history_text@], s) == history_text@);
            assert(join(parts.drop_last(), s) == history_text@ + s + user_message@);
            assert(join(parts, s) == history_text@ + s + user_message@ + s + silences_md@);
        } else {
            assert(parts.drop_last() =~= seq![user_message@]);
            assert(join(seq![user_message@], s) == user_message@);
            assert(join(parts, s) == user_message@ + s + silences_md@);
        }
    }
    r
}

/// The messages of the context agent: the user's system prompt when there is one,
/// SILENCES.md as a system message named "SILENCES.md", and the user's request.
pub fn build_surgery_messages(system_prompt: Option<&str>, silences_md: &str, user_prompt: &str) -> (r:
    Vec<Message>)
    ensures
        r@.len() == if system_prompt is Some {
            3int
        } else {
            2int
        },
        match system_prompt {
            Some(s) => r@[0]@ == plain_view("system"@, s@, None),
            None => true,
        },
        r@[r@.len() - 2]@ == plain_view("system"@, silences_md@, Some("SILENCES.md"@)),
        r@[r@.len() - 1]@ == plain_view(
            "user"@,
            "根据要求修改 context.json，不要管其他文件: "@ + user_prompt@,
            None,
        ),
{
    let mut msgs: Vec<Message> = Vec::new();
    if let Some(sys) = system_prompt {
        msgs.push(Message::new("system", sys));
    }
    msgs.push(
        Message {
            role: String::from_str("system"),
            content: silences_md.to_owned(),
            name: Some(String::from_str("SILENCES.md")),
            reasoning_content: None,
            tool_calls: None,
            tool_call_id: None,
        },
    );
    let mut text = String::from_str("根据要求修改 context.json，不要管其他文件: ");
    text.append(user_prompt);
    msgs.push(Message::new("user", text.as_str()));
    msgs
}

} // verus!
