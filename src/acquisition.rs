//! The acquisition loop's decisions: the bytes it has not yet framed, and
//! its life cycle from setup to close.
use crate::codec::{frame_views, scan_buffer, scan_spec, ChannelFrame};
use vstd::prelude::*;

verus! {

/// The text that the GBK decoder makes of some bytes.
pub uninterp spec fn gbk_text(b: Seq<u8>) -> Seq<char>;

/// Relies on `encoding_rs::Encoding::decode` on `encoding_rs::GBK`, which
/// decodes the whole input (malformed sequences replaced) into a string
/// that depends on the bytes alone. A UTF-8 or UTF-16 byte-order mark at the
/// start switches the decoder to that encoding; that too is read from the
/// bytes.
#[verifier::external_body]
fn decode_gbk(bytes: &Vec<u8>) -> (r: String)
    ensures
        r@ == gbk_text(bytes@),
{
    let (text, _, _) = encoding_rs::GBK.decode(bytes.as_slice());
    text.into_owned()
}

/// What feeding new bytes to a [`StreamDecoder`] produced.
pub struct Decoded {
    /// The frames decoded, in stream order.
    pub frames: Vec<ChannelFrame>,
    /// The diagnostic bytes of this round decoded as text, if there were any.
    pub text: Option<String>,
}

/// The bytes received but not yet framed.
pub struct StreamDecoder {
    pending: Vec<u8>,
}

impl View for StreamDecoder {
    type V = Seq<u8>;

    closed spec fn view(&self) -> Seq<u8> {
        self.pending@
    }
}

impl StreamDecoder {
    /// A decoder with nothing pending.
    pub fn new() -> (r: StreamDecoder)
        ensures
            r@ == Seq::<u8>::empty(),
    {
        StreamDecoder { pending: Vec::new() }
    }

    /// The bytes still waiting for the rest of their packet.
    pub fn pending(&self) -> (r: &Vec<u8>)
        ensures
            r@ == self@,
    {
        &self.pending
    }

    /// Appends `data` to the pending bytes and scans them. An empty `data`
    /// changes nothing. The diagnostic bytes of the scan, if any, come back
    /// decoded as GBK text.
    pub fn feed(&mut self, data: Vec<u8>) -> (r: Decoded)
        ensures
            data@.len() == 0 ==> {
                &&& final(self)@ == old(self)@
                &&& r.frames@.len() == 0
                &&& r.text is None
            },
            data@.len() > 0 ==> {
                let s = old(self)@ + data@;
                &&& frame_views(r.frames@) == scan_spec(s).0
                &&& final(self)@ == s.skip(scan_spec(s).2)
                &&& (r.text is Some <==> scan_spec(s).1.len() > 0)
                &&& (r.text matches Some(t) ==> t@ == gbk_text(scan_spec(s).1))
            },
    {
        if data.len() == 0 {
            return Decoded { frames: Vec::new(), text: None };
        }
        let mut data = data;
        self.pending.append(&mut data);
        let scanned = scan_buffer(&mut self.pending);
        let text = if scanned.diagnostic.len() > 0 {
            Some(decode_gbk(&scanned.diagnostic))
        } else {
            None
        };
        Decoded { frames: scanned.frames, text }
    }
}

/// The stages of one acquisition session.
#[derive(Clone, Copy, Debug, PartialEq, Eq, Structural)]
pub enum LoopPhase {
    NotStarted,
    SettingUp,
    Running,
    Stopping,
    Stopped,
}

/// What the loop's driver observed.
#[derive(Clone, Copy, Debug, PartialEq, Eq, Structural)]
pub enum LoopEvent {
    /// The session was asked to start.
    Start,
    /// The data source's setup succeeded.
    SetupSucceeded,
    /// The data source's setup failed.
    SetupFailed,
    /// A read returned (bytes, possibly none).
    ReadSucceeded,
    /// A read failed fatally.
    ReadFailed,
    /// The stop flag was seen at the top of an iteration.
    StopRequested,
    /// The data source was closed.
    Closed,
}

/// What the driver is to do next.
#[derive(Clone, Copy, Debug, PartialEq, Eq, Structural)]
pub enum LoopAction {
    /// Set up the data source.
    SetUp,
    /// Report success of the setup, then read.
    ReportReady,
    /// Report the setup failure and end the session without reading.
    ReportFailure,
    /// Read from the data source (and feed what came to the decoder).
    Read,
    /// Close the data source.
    Close,
    /// Nothing more to do.
    Finish,
}

/// The acquisition loop's transition table.
pub open spec fn loop_step_spec(phase: LoopPhase, event: LoopEvent) -> (LoopPhase, LoopAction) {
    match (phase, event) {
        (LoopPhase::NotStarted, LoopEvent::Start) => (LoopPhase::SettingUp, LoopAction::SetUp),
        (LoopPhase::SettingUp, LoopEvent::SetupSucceeded) => (
            LoopPhase::Running,
            LoopAction::ReportReady,
        ),
        (LoopPhase::SettingUp, LoopEvent::SetupFailed) => (
            LoopPhase::Stopped,
            LoopAction::ReportFailure,
        ),
        (LoopPhase::Running, LoopEvent::ReadSucceeded) => (LoopPhase::Running, LoopAction::Read),
        (LoopPhase::Running, LoopEvent::ReadFailed) => (LoopPhase::Stopping, LoopAction::Close),
        (LoopPhase::Running, LoopEvent::StopRequested) => (LoopPhase::Stopping, LoopAction::Close),
        (LoopPhase::Stopping, LoopEvent::Closed) => (LoopPhase::Stopped, LoopAction::Finish),
        (LoopPhase::Stopped, _) => (LoopPhase::Stopped, LoopAction::Finish),
        _ => (phase, LoopAction::Finish),
    }
}

/// Gives the next stage and action of the acquisition loop for an event.
/// A session reads only after a successful setup, stops reading on the stop
/// flag or a fatal read error, and then always closes its source; a failed
/// setup ends the session without reading.
pub fn loop_step(phase: LoopPhase, event: LoopEvent) -> (r: (LoopPhase, LoopAction))
    ensures
        r == loop_step_spec(phase, event),
{
    match (phase, event) {
        (LoopPhase::NotStarted, LoopEvent::Start) => (LoopPhase::SettingUp, LoopAction::SetUp),
        (LoopPhase::SettingUp, LoopEvent::SetupSucceeded) => (
            LoopPhase::Running,
            LoopAction::ReportReady,
        ),
        (LoopPhase::SettingUp, LoopEvent::SetupFailed) => (
            LoopPhase::Stopped,
            LoopAction::ReportFailure,
        ),
        (LoopPhase::Running, LoopEvent::ReadSucceeded) => (LoopPhase::Running, LoopAction::Read),
        (LoopPhase::Running, LoopEvent::ReadFailed) => (LoopPhase::Stopping, LoopAction::Close),
        (LoopPhase::Running, LoopEvent::StopRequested) => (LoopPhase::Stopping, LoopAction::Close),
        (LoopPhase::Stopping, LoopEvent::Closed) => (LoopPhase::Stopped, LoopAction::Finish),
        (LoopPhase::Stopped, _) => (LoopPhase::Stopped, LoopAction::Finish),
        _ => (phase, LoopAction::Finish),
    }
}

/// How a read from the socket source's client ended.
#[derive(Clone, Copy, Debug, PartialEq, Eq, Structural)]
pub enum SocketRead {
    /// Some bytes arrived.
    Bytes,
    /// The read returned no bytes: the peer closed the connection.
    PeerClosed,
    /// No bytes were available yet.
    WouldBlock,
    /// The read failed.
    Failed,
}

/// Whether the socket source has a client.
pub struct SocketLink {
    pub connected: bool,
}

impl SocketLink {
    /// No client yet.
    pub fn new() -> (r: SocketLink)
        ensures
            !r.connected,
    {
        SocketLink { connected: false }
    }

    /// A new client is accepted only while none is connected.
    pub fn should_accept(&self) -> (r: bool)
        ensures
            r == !self.connected,
    {
        !self.connected
    }

    /// Records that a client was accepted.
    pub fn accepted(&mut self)
        ensures
            final(self).connected,
    {
        self.connected = true;
    }

    /// Records how a read ended, and says whether the failure is fatal to
    /// the session. A closed peer drops the client without ending the
    /// session, so a new client may connect; a failed read drops the client
    /// and is fatal.
    pub fn after_read(&mut self, outcome: SocketRead) -> (fatal: bool)
        ensures
            fatal == (outcome == SocketRead::Failed),
            final(self).connected == match outcome {
                SocketRead::Bytes | SocketRead::WouldBlock => old(self).connected,
                SocketRead::PeerClosed | SocketRead::Failed => false,
            },
    {
        match outcome {
            SocketRead::Bytes | SocketRead::WouldBlock => false,
            SocketRead::PeerClosed => {
                self.connected = false;
                false
            },
            SocketRead::Failed => {
                self.connected = false;
                true
            },
        }
    }
}

/// A byte source the acquisition loop can drive: a serial port, a socket
/// listener, or a synthetic generator.
pub trait DataReader {
    /// Opens the underlying resource.
    fn setup(&mut self) -> Result<(), String>;

    /// Returns the bytes available now; none is not an error.
    fn read_data(&mut self) -> Result<Vec<u8>, String>;

    /// Releases the underlying resource; calling it again does nothing.
    fn close(&mut self);
}

} // verus!
