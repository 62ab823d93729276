//! Discovery of a camera on the local network, the session that streams its
//! video, the relay that carries the stream to a collector, and the proxy that
//! takes the relayed stream apart again.
use vstd::prelude::*;

pub mod destination;
pub mod envelope;
pub mod mac;
pub mod number;
pub mod protocol;
pub mod proxy;
pub mod relay;
pub mod rtp;
pub mod session;
pub mod text;
pub mod wire;

verus! {

/// Operation codes of the camera control protocol.
#[derive(Debug, Clone, Copy, PartialEq, Eq, Structural)]
pub enum Command {
    /// Broadcast request asking cameras to announce themselves.
    Scan,
    /// A camera's answer to `Scan`.
    ScanReply,
    /// Request to begin streaming to a given port.
    StartRtp,
}

impl Command {
    /// The 16-bit code that stands for this command on the wire.
    pub open spec fn code(self) -> u16 {
        match self {
            Command::Scan => 0x1004,
            Command::ScanReply => 0x100e,
            Command::StartRtp => 0x1007,
        }
    }

    /// The 16-bit code that stands for this command on the wire.
    pub fn as_u16(&self) -> (code: u16)
        ensures
            code == self.code(),
    {
        match self {
            Command::Scan => 0x1004,
            Command::ScanReply => 0x100e,
            Command::StartRtp => 0x1007,
        }
    }
}

impl From<Command> for u16 {
    fn from(v: Command) -> (code: u16) {
        v.as_u16()
    }
}

impl vstd::std_specs::convert::FromSpecImpl<Command> for u16 {
    open spec fn obeys_from_spec() -> bool {
        true
    }

    open spec fn from_spec(v: Command) -> u16 {
        v.code()
    }
}

/// No two commands share a code.
pub proof fn lemma_codes_differ(a: Command, b: Command)
    ensures
        a.code() == b.code() <==> a == b,
{
}

} // verus!
