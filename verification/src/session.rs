//! Sessions, run flags, tool limits and the requests and settings exchanged with the front end.
use vstd::prelude::*;

use crate::message::Message;

verus! {

/// A conversation session.
pub struct Session {
    pub id: String,
    /// ISO 8601 creation time.
    pub created_at: String,
    /// The first user message, as a preview.
    pub preview: Option<String>,
    /// A name chosen by the user.
    pub name: Option<String>,
}

/// Stop and pause flags of a running agent.
pub struct RunFlags {
    stop: bool,
    pause: bool,
}

impl RunFlags {
    pub closed spec fn stopped(&self) -> bool {
        self.stop
    }

    pub closed spec fn paused(&self) -> bool {
        self.pause
    }

    /// Neither stopped nor paused.
    pub fn new() -> (f: Self)
        ensures
            !f.stopped(),
            !f.paused(),
    {
        RunFlags { stop: false, pause: false }
    }

    /// Asks the agent to stop.
    pub fn signal_stop(&mut self)
        ensures
            final(self).stopped(),
            final(self).paused() == old(self).paused(),
    {
        self.stop = true;
    }

    /// Whether the agent was asked to stop.
    pub fn should_stop(&self) -> (b: bool)
        ensures
            b == self.stopped(),
    {
        self.stop
    }

    /// Asks the agent to pause.
    pub fn signal_pause(&mut self)
        ensures
            final(self).paused(),
            final(self).stopped() == old(self).stopped(),
    {
        self.pause = true;
    }

    /// Lets a paused agent go on.
    pub fn signal_resume(&mut self)
        ensures
            !final(self).paused(),
            final(self).stopped() == old(self).stopped(),
    {
        self.pause = false;
    }

    /// Whether the agent was asked to pause.
    pub fn should_pause(&self) -> (b: bool)
        ensures
            b == self.paused(),
    {
        self.pause
    }
}

/// Hard limits shared by the tools.
pub struct ToolLimits {
    /// Maximum tokens of a command's stdout shown.
    pub command_stdout_max_tok: usize,
    /// Maximum tokens of a command's stderr shown.
    pub command_stderr_max_tok: usize,
    /// Maximum leading comment lines that glance reads from a file.
    pub glance_max_comment_lines: usize,
    /// Maximum matches that grep shows.
    pub grep_max_shown_matches: usize,
    /// Context lines shown around a grep match.
    pub grep_context_lines: usize,
    /// Maximum entries that glance shows for a directory.
    pub glance_max_shown_items: usize,
    /// Maximum matches that find shows.
    pub find_max_shown_items: usize,
    /// Context lines shown when an edit fails to match.
    pub edit_context_lines: usize,
}

impl Clone for ToolLimits {
    fn clone(&self) -> (res: Self)
        ensures
            res == *self,
    {
        *self
    }
}

impl Copy for ToolLimits {

}

impl Default for ToolLimits {
    fn default() -> (l: Self)
        ensures
            l.command_stdout_max_tok == 2000,
            l.command_stderr_max_tok == 1000,
            l.glance_max_comment_lines == 20,
            l.grep_max_shown_matches == 8,
            l.grep_context_lines == 2,
            l.glance_max_shown_items == 50,
            l.find_max_shown_items == 50,
            l.edit_context_lines == 5,
    {
        ToolLimits {
            command_stdout_max_tok: 2000,
            command_stderr_max_tok: 1000,
            glance_max_comment_lines: 20,
            grep_max_shown_matches: 8,
            grep_context_lines: 2,
            glance_max_shown_items: 50,
            find_max_shown_items: 50,
            edit_context_lines: 5,
        }
    }
}

/// A request to set an agent's state: "pause" | "resume" | "stop".
pub struct SetStateRequest {
    pub action: String,
}

/// A request to the context surgery agent.
pub struct SurgeryRequest {
    pub prompt: String,
}

/// A chat request from a client.
pub struct ChatRequest {
    /// `None` opens a new session.
    pub session_id: Option<String>,
    pub message: String,
    pub system: Option<String>,
    /// `false` asks for a non-streaming answer.
    pub stream: bool,
}

/// The settings shown to the user.
pub struct Settings {
    pub api_key: Option<String>,
    pub system_prompt: Option<String>,
    /// Delay between tool rounds, in milliseconds.
    pub tool_delay_ms: u64,
    /// Whether the prompt prefix cache is warmed up.
    pub warmup_enabled: bool,
    /// Whether the previous context is collapsed when a message is sent.
    pub auto_collapse_prev: bool,
}

/// A partial update of the settings (`None` leaves a setting as it is).
pub struct SettingsUpdate {
    pub api_key: Option<String>,
    pub system_prompt: Option<String>,
    pub tool_delay_ms: Option<u64>,
    pub warmup_enabled: Option<bool>,
    pub auto_collapse_prev: Option<bool>,
}

/// The runtime state of a session.
pub struct SessionState {
    /// The messages last sent to the model.
    pub context: Vec<Message>,
    /// "idle" | "running" | "paused"
    pub status: String,
}

/// The default of `ChatRequest::stream`.
pub fn default_true() -> (b: bool)
    ensures
        b,
{
    true
}

/// The default of `Settings::warmup_enabled`.
pub fn default_warmup() -> (b: bool)
    ensures
        b,
{
    true
}

/// The default of `Settings::auto_collapse_prev`.
pub fn default_auto_collapse() -> (b: bool)
    ensures
        b,
{
    true
}

/// The default of `SessionState::status`.
pub fn default_status() -> (s: String)
    ensures
        s@ == "idle"@,
{
    String::from_str("idle")
}

/// Configuration of the library mode.
pub struct SilencesConfig {
    /// Path of the SQLite database.
    pub db_path: String,
    pub api_key: String,
    /// API base URL (`None` for the default).
    pub base_url: Option<String>,
    /// Model name (`None` for the default).
    pub model: Option<String>,
    pub system_prompt: Option<String>,
    /// Project root, which holds the session context files.
    pub project_root: Option<String>,
    /// Tool limits (`None` for the defaults).
    pub tool_limits: Option<ToolLimits>,
    pub warmup_enabled: bool,
}

/// What a `SetStateRequest` asks of a session's agent.
pub enum SetStateAction {
    /// Pause the running agent, then reply OK.
    Pause,
    /// Resume the running agent, then reply OK.
    Resume,
    /// Stop the running agent and forget its flags, then reply OK.
    Stop,
    /// Nothing to stop: reply OK.
    AlreadyIdle,
    /// No agent runs for the session: reply 400 "没有正在运行的 agent".
    NoRunningAgent,
    /// Unknown action: reply 400 "未知动作: {action}".
    UnknownAction,
}

/// Decides what a state request does, given whether an agent runs for the session:
/// "pause" and "resume" need a running agent; "stop" succeeds either way.
pub fn set_state_action(action: &String, running: bool) -> (r: SetStateAction)
    ensures
        action@ == "pause"@ ==> (if running {
            r is Pause
        } else {
            r is NoRunningAgent
        }),
        action@ == "resume"@ ==> (if running {
            r is Resume
        } else {
            r is NoRunningAgent
        }),
        action@ == "stop"@ ==> (if running {
            r is Stop
        } else {
            r is AlreadyIdle
        }),
        action@ != "pause"@ && action@ != "resume"@ && action@ != "stop"@ ==> r is UnknownAction,
{
    proof {
        reveal_strlit("pause");
        reveal_strlit("resume");
        reveal_strlit("stop");
        assert("pause"@[0] != "resume"@[0]);
        assert("pause"@[0] != "stop"@[0]);
        assert("resume"@[0] != "stop"@[0]);
    }
    let p = String::from_str("pause");
    let res = String::from_str("resume");
    let st = String::from_str("stop");
    if *action == p {
        if running {
            SetStateAction::Pause
        } else {
            SetStateAction::NoRunningAgent
        }
    } else if *action == res {
        if running {
            SetStateAction::Resume
        } else {
            SetStateAction::NoRunningAgent
        }
    } else if *action == st {
        if running {
            SetStateAction::Stop
        } else {
            SetStateAction::AlreadyIdle
        }
    } else {
        SetStateAction::UnknownAction
    }
}

/// The status of a session: "idle" without a running agent, else "paused" or "running".
pub fn session_status(flags: Option<&RunFlags>) -> (s: String)
    ensures
        s@ == match flags {
            Some(f) => if f.paused() {
                "paused"@
            } else {
                "running"@
            },
            None => "idle"@,
        },
{
    match flags {
        Some(f) => if f.should_pause() {
            String::from_str("paused")
        } else {
            String::from_str("running")
        },
        None => String::from_str("idle"),
    }
}

} // verus!
