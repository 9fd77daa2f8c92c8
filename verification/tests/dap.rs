use pata::dap::hook::DebugHook;
use pata::dap::mock_hook::MockHook;
use pata::dap::server::{
    ack, command_name, DapCommand, DapEvent, DapRequest, DapSession, ResponseBody,
};

fn session() -> DapSession<MockHook> {
    DapSession::new(MockHook::new())
}

fn req(seq: i64, command: DapCommand) -> DapRequest {
    DapRequest { seq, command }
}

#[test]
fn should_pause_returns_false_for_a_line_with_no_breakpoint() {
    let mut hook = MockHook::new();
    hook.set_breakpoints(vec![10]);
    assert!(!hook.should_pause(5), "a line with no breakpoint must not pause");
    assert!(!hook.did_pause());
}

#[test]
fn should_pause_pauses_at_a_breakpoint_until_resumed() {
    let mut hook = MockHook::new();
    hook.set_breakpoints(vec![7]);
    assert!(hook.should_pause(7));
    assert!(hook.did_pause());
    hook.resume();
    assert!(!hook.should_pause(8));
}

#[test]
fn current_bindings_returns_the_canned_variables() {
    let hook = MockHook::new();
    let bindings = hook.current_bindings();
    assert!(bindings.iter().any(|(k, _)| k == "x"));
}

#[test]
fn set_bindings_replaces_the_canned_variables() {
    let mut hook = MockHook::new();
    hook.set_bindings(vec![("y".to_string(), "7".to_string())]);
    let bindings = hook.current_bindings();
    assert_eq!(bindings, vec![("y".to_string(), "7".to_string())]);
}

#[test]
fn initialize_responds_with_capabilities_and_an_initialized_event() {
    let mut s = session();
    let (resp, events) = s.handle(&req(1, DapCommand::Initialize));
    assert!(resp.success);
    assert!(matches!(resp.body, Some(ResponseBody::Initialize { supports_configuration_done_request: true })));
    assert_eq!(events.len(), 1);
    assert!(matches!(events[0], DapEvent::Initialized));
}

#[test]
fn launch_acknowledges_and_stores_the_program_path() {
    let mut s = session();
    let (resp, _) = s.handle(&req(2, DapCommand::Launch { program: Some("/tmp/mfano.as".to_string()) }));
    assert!(resp.success);
    let (st_resp, _) = s.handle(&req(3, DapCommand::StackTrace));
    let Some(ResponseBody::StackTrace { stack_frames, .. }) = st_resp.body else { panic!("expected StackTrace body") };
    assert_eq!(stack_frames[0].source_path.as_deref(), Some("/tmp/mfano.as"));
}

#[test]
fn set_breakpoints_returns_one_verified_breakpoint_per_line() {
    let mut s = session();
    let (resp, _) = s.handle(&req(4, DapCommand::SetBreakpoints { lines: Some(vec![5, 9]) }));
    assert!(resp.success);
    let Some(ResponseBody::SetBreakpoints { breakpoints }) = resp.body else { panic!("expected SetBreakpoints body") };
    assert_eq!(breakpoints.len(), 2);
    assert!(breakpoints.iter().all(|b| b.verified));
    assert_eq!(breakpoints[0].line, 5);
    assert_eq!(breakpoints[1].line, 9);
    assert_eq!(s.breakpoint_lines(), vec![5, 9]);
}

#[test]
fn continue_resumes_the_hook() {
    let mut hook = MockHook::new();
    hook.set_breakpoints(vec![3]);
    assert!(hook.should_pause(3));
    assert!(hook.is_halted());
    let mut s = DapSession::new(hook);
    let (resp, _) = s.handle(&req(5, DapCommand::Continue));
    assert!(resp.success);
    assert!(matches!(resp.body, Some(ResponseBody::Continue { all_threads_continued: true })));
    assert!(!s.hook().is_halted(), "continue must have released the pause");
    assert!(s.hook().did_pause());
}

#[test]
fn stack_trace_reports_the_last_paused_line() {
    let mut s = session();
    s.set_paused_line(42);
    let (resp, _) = s.handle(&req(6, DapCommand::StackTrace));
    let Some(ResponseBody::StackTrace { stack_frames, total_frames }) = resp.body else { panic!("expected StackTrace body") };
    assert_eq!(stack_frames[0].line, 42);
    assert_eq!(total_frames, 1);
}

#[test]
fn scopes_returns_a_locals_scope() {
    let mut s = session();
    let (resp, _) = s.handle(&req(7, DapCommand::Scopes));
    let Some(ResponseBody::Scopes { scopes }) = resp.body else { panic!("expected Scopes body") };
    assert_eq!(scopes.len(), 1);
    assert_eq!(scopes[0].name, "Locals");
}

#[test]
fn variables_reflects_the_hooks_real_bindings() {
    let mut hook = MockHook::new();
    hook.set_bindings(vec![("jumla".to_string(), "10".to_string())]);
    let mut s = DapSession::new(hook);
    let (resp, _) = s.handle(&req(8, DapCommand::Variables));
    let Some(ResponseBody::Variables { variables }) = resp.body else { panic!("expected Variables body") };
    assert_eq!(variables.len(), 1);
    assert_eq!(variables[0].name, "jumla");
    assert_eq!(variables[0].value, "10");
}

#[test]
fn disconnect_acknowledges_and_sends_a_terminated_event() {
    let mut s = session();
    let (resp, events) = s.handle(&req(9, DapCommand::Disconnect));
    assert!(resp.success);
    assert!(matches!(resp.body, Some(ResponseBody::Disconnect)));
    assert_eq!(events.len(), 1);
    assert!(matches!(events[0], DapEvent::Terminated));
}

#[test]
fn an_unimplemented_command_returns_a_real_error_response() {
    let mut s = session();
    let (resp, _) = s.handle(&req(10, DapCommand::Pause));
    assert!(!resp.success, "an unimplemented command must fail, not silently succeed");
    assert_eq!(resp.error_message.as_deref(), Some("amri haijatekelezwa: pause"));
    assert_eq!(resp.request_seq, 10);
}

#[test]
fn threads_and_acknowledgements_have_their_fixed_shapes() {
    let mut s = session();
    let (resp, _) = s.handle(&req(11, DapCommand::Threads));
    let Some(ResponseBody::Threads { threads }) = resp.body else { panic!("expected Threads body") };
    assert_eq!(threads, vec![(1, "kuu".to_string())]);
    let r = ack(&req(12, DapCommand::ConfigurationDone));
    assert!(r.success && matches!(r.body, Some(ResponseBody::ConfigurationDone)));
    let r = ack(&req(13, DapCommand::Threads));
    assert!(r.success && r.body.is_none());
    assert_eq!(command_name(&DapCommand::Other), "haijulikani");
    assert_eq!(command_name(&DapCommand::StepIn), "stepIn");
}
