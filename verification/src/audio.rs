//! Mirroring of system audio, which is a placeholder.

use crate::device::AirPlayDevice;
use crate::error::RottenError;
use crate::text;
use vstd::prelude::*;

verus! {

/// Audio mirroring to a receiver.
#[derive(Debug)]
pub struct AudioMirror {
    device_name: String,
}

impl AudioMirror {
    /// Name of the receiver.
    pub closed spec fn device(&self) -> Seq<char> {
        self.device_name@
    }

    /// Starts audio mirroring; nothing is captured yet.
    pub fn start(device: &AirPlayDevice) -> (r: Result<Self, RottenError>)
        ensures
            r matches Ok(m) && m.device() == device.name@,
    {
        Ok(AudioMirror { device_name: text::owned(device.name.as_str()) })
    }

    /// Ends audio mirroring, and gives the name of the receiver.
    pub fn stop(self) -> (r: Result<String, RottenError>)
        ensures
            r matches Ok(name) && name@ == self.device(),
    {
        Ok(self.device_name)
    }
}

/// The audio sources that can be captured.
pub fn list_audio_sources() -> (r: Vec<String>)
    ensures
        r@.len() == 1,
        r@[0]@ == "default"@,
{
    let mut v: Vec<String> = Vec::new();
    v.push(text::owned("default"));
    v
}

} // verus!
