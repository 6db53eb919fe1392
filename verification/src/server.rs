//! Errors of starting the server, and how a failure to open the virtual
//! audio device is reported to the user.

use vstd::prelude::*;
use crate::sink::SinkError;
use crate::text::{contains_text, occurs_at, str_contains};

verus! {

#[verifier::external_type_specification]
#[verifier::external_body]
pub struct ExIoError(std::io::Error);

/// Errors of starting the server.
#[derive(Debug)]
pub enum ServerError {
    /// The UDP data port could not be bound.
    BindUdp { port: u16, source: std::io::Error },
    /// The TCP control port could not be bound.
    BindTcp { port: u16, source: std::io::Error },
    /// No virtual audio device (BlackHole on macOS, VB-CABLE on Windows) is installed.
    BlackHoleNotFound,
    /// The audio device failed otherwise.
    Sink(String),
    /// The decoder could not be created.
    Decoder(String),
    /// The mDNS responder could not be created.
    Mdns(String),
}

impl ServerError {
    /// How a failure to open the virtual audio device is reported: as the
    /// device missing when the error's message mentions `not found` or
    /// `DeviceNotFound`, otherwise as a sink error carrying that message.
    /// A `DeviceNotFound` error is always reported as the device missing.
    pub fn from_sink_open(e: &SinkError) -> (r: ServerError)
        ensures
            (contains_text(e.text(), "not found"@) || contains_text(e.text(), "DeviceNotFound"@))
                ==> r is BlackHoleNotFound,
            !(contains_text(e.text(), "not found"@) || contains_text(e.text(), "DeviceNotFound"@))
                ==> (r matches ServerError::Sink(m) && m@ == e.text()),
            e is DeviceNotFound ==> r is BlackHoleNotFound,
    {
        let msg = e.to_string();
        proof {
            reveal_strlit("not found");
            reveal_strlit("device not found: ");
            if e is DeviceNotFound {
                // "device not found: " holds "not found" from its eighth character.
                assert(e.text().subrange(7, 16) =~= "not found"@);
                assert(occurs_at(e.text(), "not found"@, 7));
            }
        }
        if str_contains(msg.as_str(), "not found") || str_contains(msg.as_str(), "DeviceNotFound") {
            ServerError::BlackHoleNotFound
        } else {
            ServerError::Sink(msg)
        }
    }
}

} // verus!
