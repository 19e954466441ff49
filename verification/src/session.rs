//! State of a mirror session.

use vstd::prelude::*;

verus! {

/// State of an active or pending mirror session.
#[derive(Debug, Clone, Copy, PartialEq, Eq, Structural)]
pub enum SessionState {
    Disconnected,
    Connecting,
    Pairing,
    Authenticating,
    SettingUp,
    Streaming,
    Stopping,
}

/// Runtime data of a mirror session.
#[derive(Debug, Clone)]
pub struct MirrorSession {
    pub state: SessionState,
    pub session_id: Option<String>,
    pub stream_port: Option<u16>,
    pub control_port: Option<u16>,
}

impl Default for MirrorSession {
    fn default() -> (r: Self)
        ensures
            r.state == SessionState::Disconnected,
            r.session_id is None,
            r.stream_port is None,
            r.control_port is None,
    {
        MirrorSession {
            state: SessionState::Disconnected,
            session_id: None,
            stream_port: None,
            control_port: None,
        }
    }
}

impl MirrorSession {
    /// Moves to `state`; everything else stays.
    pub fn transition(&mut self, state: SessionState)
        ensures
            *final(self) == (MirrorSession { state: state, ..*old(self) }),
    {
        self.state = state;
    }
}

} // verus!
