//! Request handling of a debug session: `initialize`, `launch`, `setBreakpoints`,
//! `configurationDone`, `threads`, `continue`, `stackTrace`, `scopes`, `variables` and
//! `disconnect`; every other command is answered with an error response.

use vstd::prelude::*;
use crate::dap::hook::{bindings_view, DebugHook};
use crate::text::{chars_of, concat2, string_of};

verus! {

/// A request's command with the arguments the session reads.
#[derive(Clone, Debug)]
pub enum DapCommand {
    Initialize,
    /// `program` is the `program` field of the launch configuration, when it is a string.
    Launch { program: Option<String> },
    /// The lines of the requested breakpoints (`None` when the request lists none).
    SetBreakpoints { lines: Option<Vec<i64>> },
    ConfigurationDone,
    Threads,
    Continue,
    StackTrace,
    Scopes,
    Variables,
    Disconnect,
    Attach,
    Next,
    StepIn,
    StepOut,
    Pause,
    Evaluate,
    SetVariable,
    Restart,
    /// Any other command of the protocol.
    Other,
}

/// A request: its sequence number and command.
#[derive(Clone, Debug)]
pub struct DapRequest {
    pub seq: i64,
    pub command: DapCommand,
}

/// A breakpoint as reported back: verified, at its line, in the launched program's source.
#[derive(Clone, Debug)]
pub struct BreakpointInfo {
    pub verified: bool,
    pub line: i64,
    pub source_path: Option<String>,
}

/// A stack frame as reported back.
#[derive(Clone, Debug)]
pub struct FrameInfo {
    pub id: i64,
    pub name: String,
    pub source_path: Option<String>,
    pub line: i64,
    pub column: i64,
}

/// A variable scope as reported back.
#[derive(Clone, Debug)]
pub struct ScopeInfo {
    pub name: String,
    pub variables_reference: i64,
    pub expensive: bool,
}

/// A variable as reported back.
#[derive(Clone, Debug)]
pub struct VariableInfo {
    pub name: String,
    pub value: String,
    pub variables_reference: i64,
}

/// The body of a successful response.
#[derive(Clone, Debug)]
pub enum ResponseBody {
    Initialize { supports_configuration_done_request: bool },
    Launch,
    ConfigurationDone,
    Disconnect,
    Attach,
    Next,
    StepIn,
    StepOut,
    Pause,
    Restart,
    SetBreakpoints { breakpoints: Vec<BreakpointInfo> },
    Threads { threads: Vec<(i64, String)> },
    Continue { all_threads_continued: bool },
    StackTrace { stack_frames: Vec<FrameInfo>, total_frames: i64 },
    Scopes { scopes: Vec<ScopeInfo> },
    Variables { variables: Vec<VariableInfo> },
}

/// A response: the request it answers, success, the error message of a failure, and the body.
#[derive(Clone, Debug)]
pub struct DapResponse {
    pub request_seq: i64,
    pub success: bool,
    pub error_message: Option<String>,
    pub body: Option<ResponseBody>,
}

/// An event sent after a response.
#[derive(Clone, Copy, Debug, PartialEq, Eq, Structural)]
pub enum DapEvent {
    Initialized,
    Terminated,
}

/// A successful response to `req` carrying `body`.
pub fn ok_response(req: &DapRequest, body: ResponseBody) -> (r: DapResponse)
    ensures
        r.request_seq == req.seq,
        r.success,
        r.error_message is None,
        r.body == Some(body),
{
    DapResponse { request_seq: req.seq, success: true, error_message: None, body: Some(body) }
}

/// The marker body an acknowledgement carries for a command, where the protocol has one.
pub open spec fn ack_body(c: DapCommand) -> Option<ResponseBody> {
    match c {
        DapCommand::Launch { .. } => Some(ResponseBody::Launch),
        DapCommand::ConfigurationDone => Some(ResponseBody::ConfigurationDone),
        DapCommand::Disconnect => Some(ResponseBody::Disconnect),
        DapCommand::Attach => Some(ResponseBody::Attach),
        DapCommand::Next => Some(ResponseBody::Next),
        DapCommand::StepIn => Some(ResponseBody::StepIn),
        DapCommand::StepOut => Some(ResponseBody::StepOut),
        DapCommand::Pause => Some(ResponseBody::Pause),
        DapCommand::Restart => Some(ResponseBody::Restart),
        _ => None,
    }
}

/// An acknowledgement of `req`: success with the command's marker body (no body for a
/// command that has none).
pub fn ack(req: &DapRequest) -> (r: DapResponse)
    ensures
        r.request_seq == req.seq,
        r.success,
        r.error_message is None,
        r.body == ack_body(req.command),
{
    let body = match &req.command {
        DapCommand::Launch { .. } => Some(ResponseBody::Launch),
        DapCommand::ConfigurationDone => Some(ResponseBody::ConfigurationDone),
        DapCommand::Disconnect => Some(ResponseBody::Disconnect),
        DapCommand::Attach => Some(ResponseBody::Attach),
        DapCommand::Next => Some(ResponseBody::Next),
        DapCommand::StepIn => Some(ResponseBody::StepIn),
        DapCommand::StepOut => Some(ResponseBody::StepOut),
        DapCommand::Pause => Some(ResponseBody::Pause),
        DapCommand::Restart => Some(ResponseBody::Restart),
        _ => None,
    };
    DapResponse { request_seq: req.seq, success: true, error_message: None, body }
}

/// The bare name of a command the session does not implement.
pub open spec fn command_name_spec(c: DapCommand) -> Seq<char> {
    match c {
        DapCommand::Attach => "attach"@,
        DapCommand::Next => "next"@,
        DapCommand::StepIn => "stepIn"@,
        DapCommand::StepOut => "stepOut"@,
        DapCommand::Pause => "pause"@,
        DapCommand::Evaluate => "evaluate"@,
        DapCommand::SetVariable => "setVariable"@,
        DapCommand::Restart => "restart"@,
        _ => "haijulikani"@,
    }
}

/// Bare command name for the error answering an unimplemented command.
pub fn command_name(cmd: &DapCommand) -> (r: &'static str)
    ensures
        r@ == command_name_spec(*cmd),
{
    match cmd {
        DapCommand::Attach => "attach",
        DapCommand::Next => "next",
        DapCommand::StepIn => "stepIn",
        DapCommand::StepOut => "stepOut",
        DapCommand::Pause => "pause",
        DapCommand::Evaluate => "evaluate",
        DapCommand::SetVariable => "setVariable",
        DapCommand::Restart => "restart",
        _ => "haijulikani",
    }
}

/// The breakpoints reported for `lines`, one verified breakpoint per line, in order.
pub open spec fn breakpoints_reported(
    b: Seq<BreakpointInfo>,
    lines: Seq<i64>,
    source: Option<String>,
) -> bool {
    &&& b.len() == lines.len()
    &&& forall|i: int|
        0 <= i < b.len() ==> (#[trigger] b[i]).verified && b[i].line == lines[i]
            && crate::commands::opt_view(b[i].source_path) == crate::commands::opt_view(source)
}

/// The variables reported for a list of bindings, in order.
pub open spec fn variables_reported(v: Seq<VariableInfo>, bindings: Seq<(Seq<char>, Seq<char>)>) -> bool {
    &&& v.len() == bindings.len()
    &&& forall|i: int|
        0 <= i < v.len() ==> (#[trigger] v[i]).name@ == bindings[i].0 && v[i].value@
            == bindings[i].1 && v[i].variables_reference == 0
}

/// A debug session: the program's hook, the breakpoint lines last set, the launched program's
/// path, and the line execution last paused at (0 before any pause).
pub struct DapSession<H: DebugHook> {
    hook: H,
    breakpoint_lines: Vec<i64>,
    source_path: Option<String>,
    paused_at_line: i64,
}

impl<H: DebugHook> DapSession<H> {
    pub closed spec fn hook_state(&self) -> H {
        self.hook
    }

    pub closed spec fn breakpoints(&self) -> Seq<i64> {
        self.breakpoint_lines@
    }

    pub closed spec fn source(&self) -> Option<String> {
        self.source_path
    }

    pub closed spec fn paused_line(&self) -> i64 {
        self.paused_at_line
    }

    /// A session on `hook` with no breakpoints, no program and no pause yet.
    pub fn new(hook: H) -> (r: Self)
        ensures
            r.hook_state() == hook,
            r.breakpoints() == Seq::<i64>::empty(),
            r.source() is None,
            r.paused_line() == 0,
    {
        DapSession { hook, breakpoint_lines: Vec::new(), source_path: None, paused_at_line: 0 }
    }

    /// Record that execution is now paused at `line`, for later `stackTrace` answers.
    pub fn set_paused_line(&mut self, line: i64)
        ensures
            final(self).paused_line() == line,
            final(self).hook_state() == old(self).hook_state(),
            final(self).breakpoints() == old(self).breakpoints(),
            final(self).source() == old(self).source(),
    {
        self.paused_at_line = line;
    }

    /// The breakpoint lines of the last `setBreakpoints` request.
    pub fn breakpoint_lines(&self) -> (r: Vec<i64>)
        ensures
            r@ == self.breakpoints(),
    {
        self.breakpoint_lines.clone()
    }

    pub fn hook(&self) -> (r: &H)
        ensures
            *r == self.hook_state(),
    {
        &self.hook
    }

    /// What handling `req` does: the response, the events after it, and the new session.
    pub open spec fn handled(
        old: Self,
        new: Self,
        req: DapRequest,
        resp: DapResponse,
        events: Seq<DapEvent>,
    ) -> bool {
        &&& resp.request_seq == req.seq
        &&& new.paused_line() == old.paused_line()
        &&& match req.command {
            DapCommand::Initialize => {
                &&& resp.success && resp.error_message is None
                &&& resp.body == Some(
                    ResponseBody::Initialize { supports_configuration_done_request: true },
                )
                &&& events == seq![DapEvent::Initialized]
                &&& new == old
            },
            DapCommand::Launch { program } => {
                &&& resp.success && resp.error_message is None
                &&& resp.body == Some(ResponseBody::Launch)
                &&& events.len() == 0
                &&& new.hook_state() == old.hook_state()
                &&& new.breakpoints() == old.breakpoints()
                &&& crate::commands::opt_view(new.source()) == (match program {
                    Some(p) => Some(p@),
                    None => crate::commands::opt_view(old.source()),
                })
            },
            DapCommand::SetBreakpoints { lines } => {
                let ls = match lines {
                    Some(l) => l@,
                    None => Seq::empty(),
                };
                &&& resp.success && resp.error_message is None
                &&& resp.body matches Some(ResponseBody::SetBreakpoints { breakpoints })
                    && breakpoints_reported(breakpoints@, ls, old.source())
                &&& events.len() == 0
                &&& new.hook_state() == old.hook_state()
                &&& new.breakpoints() == ls
                &&& new.source() == old.source()
            },
            DapCommand::ConfigurationDone => {
                &&& resp.success && resp.error_message is None
                &&& resp.body == Some(ResponseBody::ConfigurationDone)
                &&& events.len() == 0
                &&& new == old
            },
            DapCommand::Threads => {
                &&& resp.success && resp.error_message is None
                &&& resp.body matches Some(ResponseBody::Threads { threads }) && threads@.len()
                    == 1 && threads@[0].0 == 1 && threads@[0].1@ == "kuu"@
                &&& events.len() == 0
                &&& new == old
            },
            DapCommand::Continue => {
                &&& resp.success && resp.error_message is None
                &&& resp.body == Some(ResponseBody::Continue { all_threads_continued: true })
                &&& events.len() == 0
                &&& new.hook_state() == old.hook_state().unhalted()
                &&& !new.hook_state().halted()
                &&& new.hook_state().bindings() == old.hook_state().bindings()
                &&& new.breakpoints() == old.breakpoints()
                &&& new.source() == old.source()
            },
            DapCommand::StackTrace => {
                &&& resp.success && resp.error_message is None
                &&& resp.body matches Some(ResponseBody::StackTrace { stack_frames, total_frames })
                    && total_frames == 1 && stack_frames@.len() == 1 && stack_frames@[0].id == 1
                    && stack_frames@[0].name@ == "kuu"@ && crate::commands::opt_view(
                    stack_frames@[0].source_path,
                ) == crate::commands::opt_view(old.source()) && stack_frames@[0].line
                    == old.paused_line() && stack_frames@[0].column == 0
                &&& events.len() == 0
                &&& new == old
            },
            DapCommand::Scopes => {
                &&& resp.success && resp.error_message is None
                &&& resp.body matches Some(ResponseBody::Scopes { scopes }) && scopes@.len() == 1
                    && scopes@[0].name@ == "Locals"@ && scopes@[0].variables_reference == 1
                    && !scopes@[0].expensive
                &&& events.len() == 0
                &&& new == old
            },
            DapCommand::Variables => {
                &&& resp.success && resp.error_message is None
                &&& resp.body matches Some(ResponseBody::Variables { variables })
                    && variables_reported(variables@, old.hook_state().bindings())
                &&& events.len() == 0
                &&& new == old
            },
            DapCommand::Disconnect => {
                &&& resp.success && resp.error_message is None
                &&& resp.body == Some(ResponseBody::Disconnect)
                &&& events == seq![DapEvent::Terminated]
                &&& new == old
            },
            other => {
                &&& !resp.success
                &&& resp.error_message matches Some(m) && m@ == "amri haijatekelezwa: "@
                    + command_name_spec(other)
                &&& resp.body is None
                &&& events.len() == 0
                &&& new == old
            },
        }
    }

    /// Handle one request: the response plus the events that follow it (`initialized` after
    /// `initialize`, `terminated` after `disconnect`).
    pub fn handle(&mut self, req: &DapRequest) -> (r: (DapResponse, Vec<DapEvent>))
        ensures
            Self::handled(*old(self), *final(self), *req, r.0, r.1@),
    {
        match &req.command {
            DapCommand::Initialize => {
                let mut events: Vec<DapEvent> = Vec::new();
                events.push(DapEvent::Initialized);
                assert(events@ =~= seq![DapEvent::Initialized]);
                (
                    ok_response(
                        req,
                        ResponseBody::Initialize { supports_configuration_done_request: true },
                    ),
                    events,
                )
            },
            DapCommand::Launch { program } => {
                match program {
                    Some(p) => {
                        self.source_path = Some(p.clone());
                    },
                    None => {},
                }
                (ack(req), Vec::new())
            },
            DapCommand::SetBreakpoints { lines } => {
                let ls: Vec<i64> = match lines {
                    Some(l) => l.clone(),
                    None => Vec::new(),
                };
                self.breakpoint_lines = ls.clone();
                let mut breakpoints: Vec<BreakpointInfo> = Vec::new();
                let mut i: usize = 0;
                while i < ls.len()
                    invariant
                        i <= ls.len(),
                        breakpoints.len() == i,
                        forall|k: int|
                            0 <= k < i ==> (#[trigger] breakpoints@[k]).verified
                                && breakpoints@[k].line == ls@[k]
                                && crate::commands::opt_view(breakpoints@[k].source_path)
                                == crate::commands::opt_view(self.source_path),
                    decreases ls.len() - i,
                {
                    breakpoints.push(
                        BreakpointInfo {
                            verified: true,
                            line: ls[i],
                            source_path: self.source_path.clone(),
                        },
                    );
                    i = i + 1;
                }
                (ok_response(req, ResponseBody::SetBreakpoints { breakpoints }), Vec::new())
            },
            DapCommand::ConfigurationDone => (ack(req), Vec::new()),
            DapCommand::Threads => {
                let mut threads: Vec<(i64, String)> = Vec::new();
                threads.push((1, "kuu".to_string()));
                (ok_response(req, ResponseBody::Threads { threads }), Vec::new())
            },
            DapCommand::Continue => {
                self.hook.resume();
                (
                    ok_response(req, ResponseBody::Continue { all_threads_continued: true }),
                    Vec::new(),
                )
            },
            DapCommand::StackTrace => {
                let mut stack_frames: Vec<FrameInfo> = Vec::new();
                stack_frames.push(
                    FrameInfo {
                        id: 1,
                        name: "kuu".to_string(),
                        source_path: self.source_path.clone(),
                        line: self.paused_at_line,
                        column: 0,
                    },
                );
                (
                    ok_response(req, ResponseBody::StackTrace { stack_frames, total_frames: 1 }),
                    Vec::new(),
                )
            },
            DapCommand::Scopes => {
                let mut scopes: Vec<ScopeInfo> = Vec::new();
                scopes.push(
                    ScopeInfo {
                        name: "Locals".to_string(),
                        variables_reference: 1,
                        expensive: false,
                    },
                );
                (ok_response(req, ResponseBody::Scopes { scopes }), Vec::new())
            },
            DapCommand::Variables => {
                let bindings = self.hook.current_bindings();
                let mut variables: Vec<VariableInfo> = Vec::new();
                let mut i: usize = 0;
                while i < bindings.len()
                    invariant
                        i <= bindings.len(),
                        variables.len() == i,
                        forall|k: int|
                            0 <= k < i ==> (#[trigger] variables@[k]).name@ == bindings@[k].0@
                                && variables@[k].value@ == bindings@[k].1@
                                && variables@[k].variables_reference == 0,
                    decreases bindings.len() - i,
                {
                    variables.push(
                        VariableInfo {
                            name: bindings[i].0.clone(),
                            value: bindings[i].1.clone(),
                            variables_reference: 0,
                        },
                    );
                    i = i + 1;
                }
                proof {
                    assert forall|k: int| 0 <= k < variables@.len() implies (
                    #[trigger] variables@[k]).name@ == bindings_view(bindings@)[k].0 by {}
                }
                (ok_response(req, ResponseBody::Variables { variables }), Vec::new())
            },
            DapCommand::Disconnect => {
                let mut events: Vec<DapEvent> = Vec::new();
                events.push(DapEvent::Terminated);
                assert(events@ =~= seq![DapEvent::Terminated]);
                (ack(req), events)
            },
            other => {
                let name = chars_of(command_name(other));
                let msg = concat2("amri haijatekelezwa: ", name.as_slice());
                (
                    DapResponse {
                        request_seq: req.seq,
                        success: false,
                        error_message: Some(msg),
                        body: None,
                    },
                    Vec::new(),
                )
            },
        }
    }
}

} // verus!
