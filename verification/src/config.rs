//! Server configuration.

use vstd::prelude::*;

verus! {

/// Settings of a server instance.
#[derive(Debug, Clone)]
pub struct ServerConfig {
    /// UDP data port (default 50127).
    pub data_port: u16,
    /// TCP control port (default 50128).
    pub control_port: u16,
    /// mDNS instance name (default "anyMic-<hostname>").
    pub instance_name: String,
    /// Samples per audio frame (default 240 = 5 ms @ 48 kHz).
    pub frame_samples: u32,
    /// Consecutive missing frames before Disconnected (default 500 ≈ 2.5 s).
    pub max_stall_frames: u32,
}

/// The default instance name for a host name: `anyMic-<host>`, or just
/// `anyMic` when the host name is empty.
pub open spec fn default_instance_name(host: Seq<char>) -> Seq<char> {
    if host.len() == 0 {
        "anyMic"@
    } else {
        "anyMic-"@ + host
    }
}

/// The host name as `hostname::get` reports it (lossily converted to
/// UTF-8), or empty when it cannot be read. It depends on the machine, so
/// nothing is stated of it.
#[verifier::external_body]
fn system_hostname() -> String {
    hostname::get().unwrap_or_default().to_string_lossy().to_string()
}

impl ServerConfig {
    /// The default settings for a machine named `host`.
    pub fn with_hostname(host: &str) -> (c: ServerConfig)
        ensures
            c.data_port == 50127,
            c.control_port == 50128,
            c.instance_name@ == default_instance_name(host@),
            c.frame_samples == 240,
            c.max_stall_frames == 500,
    {
        let instance_name = if host.is_empty() {
            proof {
                reveal_strlit("anyMic");
            }
            String::from_str("anyMic")
        } else {
            proof {
                reveal_strlit("anyMic-");
            }
            let mut s = String::from_str("anyMic-");
            s.append(host);
            s
        };
        ServerConfig {
            data_port: 50127,
            control_port: 50128,
            instance_name,
            frame_samples: 240,
            max_stall_frames: 500,
        }
    }
}

impl Default for ServerConfig {
    /// The default settings for this machine, named after its host name.
    fn default() -> (c: ServerConfig)
        ensures
            c.data_port == 50127,
            c.control_port == 50128,
            exists|host: Seq<char>| c.instance_name@ == default_instance_name(host),
            c.frame_samples == 240,
            c.max_stall_frames == 500,
    {
        let host = system_hostname();
        ServerConfig::with_hostname(host.as_str())
    }
}

} // verus!
