//! A mirror connection and its state.

use crate::crypto::mirror_crypto::MirrorVideoCrypto;
use crate::device::AirPlayDevice;
use crate::protocol::audio_rtp::MirrorAudioSetup;
use crate::session::{MirrorSession, SessionState};
use vstd::prelude::*;

verus! {

/// A mirror connection to a receiver.
pub struct MirrorConnection {
    pub device: AirPlayDevice,
    pub session: MirrorSession,
    /// Port for picture data on the receiver.
    pub data_port: u16,
    /// URI of the control session.
    pub control_uri: String,
}

/// A mirror connection that is set up, with the keys of its video stream and the receiver's
/// audio stream, where it has one.
pub struct MirrorHandle {
    pub connection: MirrorConnection,
    pub video_crypto: MirrorVideoCrypto,
    pub audio: Option<MirrorAudioSetup>,
}

impl MirrorConnection {
    /// The connection that a completed set-up leads to.
    pub fn connect(
        device: AirPlayDevice,
        session_uuid: String,
        data_port: u16,
        event_port: Option<u16>,
        control_uri: String,
        video_crypto: MirrorVideoCrypto,
        audio: Option<MirrorAudioSetup>,
    ) -> (r: MirrorHandle)
        ensures
            r.connection.device == device,
            r.connection.session.state == SessionState::Streaming,
            r.connection.session.session_id == Some(session_uuid),
            r.connection.session.stream_port == Some(data_port),
            r.connection.session.control_port == event_port,
            r.connection.data_port == data_port,
            r.connection.control_uri == control_uri,
            r.video_crypto == video_crypto,
            r.audio == audio,
    {
        let mut session = MirrorSession::default();
        session.transition(SessionState::Connecting);
        session.transition(SessionState::Authenticating);
        session.transition(SessionState::SettingUp);
        session.session_id = Some(session_uuid);
        session.stream_port = Some(data_port);
        session.control_port = event_port;
        session.transition(SessionState::Streaming);
        let connection = MirrorConnection { device, session, data_port, control_uri };
        MirrorHandle { connection, video_crypto, audio }
    }

    /// Ends the session; the receiver is told between the two states.
    pub fn stop(&mut self)
        ensures
            final(self).session == (MirrorSession {
                state: SessionState::Disconnected,
                ..old(self).session
            }),
            final(self).device == old(self).device,
            final(self).data_port == old(self).data_port,
            final(self).control_uri == old(self).control_uri,
    {
        self.session.transition(SessionState::Stopping);
        self.session.transition(SessionState::Disconnected);
    }
}

impl MirrorHandle {
    /// State of the session.
    pub fn session(&self) -> (r: &MirrorSession)
        ensures
            *r == self.connection.session,
    {
        &self.connection.session
    }

    /// Port for picture data on the receiver.
    pub fn data_port(&self) -> (r: u16)
        ensures
            r == self.connection.data_port,
    {
        self.connection.data_port
    }

    /// URI of the control session.
    pub fn control_uri(&self) -> (r: &str)
        ensures
            r@ == self.connection.control_uri@,
    {
        self.connection.control_uri.as_str()
    }

    /// Port for picture data on the receiver.
    pub fn stream_port(&self) -> (r: u16)
        ensures
            r == self.connection.data_port,
    {
        self.data_port()
    }

    /// Host of the receiver.
    pub fn device_host(&self) -> (r: &str)
        ensures
            r@ == self.connection.device.host@,
    {
        self.connection.device.host.as_str()
    }
}

} // verus!
