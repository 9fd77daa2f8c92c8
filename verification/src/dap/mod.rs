//! Debug Adapter Protocol session: the hook a running program exposes to the debugger, a
//! canned hook for exercising the protocol, and the request handling of a session.

pub mod hook;
pub mod mock_hook;
pub mod server;
