//! What the server does with connections and datagrams.

use crate::buffer::bytes_of;
use crate::hysteria2::auth::AuthResult;
use crate::proxy::{parse_udp_frame, udp_frame_of, FrameError, UdpFrame, UdpFrameView};
use bytes::Bytes;
use std::collections::HashMap;
use vstd::prelude::*;

verus! {

broadcast use vstd::std_specs::hash::group_hash_axioms;

/// How many bytes a stream may hold that were not read yet.
pub const STREAM_RECEIVE_WINDOW: u32 = 8388608;

/// How many bytes a connection may hold that were not read yet.
pub const CONN_RECEIVE_WINDOW: u32 = 20971520;

/// After how many seconds of silence a connection is given up.
pub const MAX_IDLE_TIMEOUT_SECS: u64 = 60;

/// How many seconds of silence are filled with a sign of life.
pub const KEEP_ALIVE_SECS: u64 = 10;

/// How many streams a client may have open.
pub const MAX_INCOMING_STREAMS: u32 = 64;

/// How many frames may wait for a UDP session.
pub const SESSION_QUEUE: usize = 256;

/// What becomes of a connection after the handshake.
#[derive(Debug)]
pub enum ConnAction {
    /// Its streams and datagrams are served.
    Serve,
    /// It is closed, with a code and a reason.
    Close { code: u32, reason: String },
}

/// Decides what becomes of a connection after the handshake.
pub fn after_auth(result: &AuthResult) -> (r: ConnAction)
    ensures
        match result {
            AuthResult::Pass => r is Serve,
            AuthResult::Fail(_) => r is Close && r->code == 1 && r->reason@ == "auth failed"@,
        },
{
    match result {
        AuthResult::Pass => ConnAction::Serve,
        AuthResult::Fail(_) => ConnAction::Close { code: 1, reason: "auth failed".to_string() },
    }
}

/// How fast the server sends.
#[derive(Clone, Copy, Debug, PartialEq, Eq, Structural)]
pub enum Congestion {
    /// At this many bytes a second, whatever is lost.
    Brutal(u64),
    /// As fast as the network lets it.
    Cubic,
}

/// The rate that the server sends at, whatever is lost, where there is one.
pub open spec fn fixed_rate(c: Congestion) -> Option<u64> {
    match c {
        Congestion::Brutal(rate) => Some(rate),
        Congestion::Cubic => None,
    }
}

/// Chooses how fast the server sends: at the configured rate, where there is
/// one.
pub fn congestion(up: Option<u64>) -> (r: Congestion)
    ensures
        fixed_rate(r) == up,
        r == match up {
            Some(rate) => Congestion::Brutal(rate),
            None => Congestion::Cubic,
        },
{
    match up {
        Some(rate) => Congestion::Brutal(rate),
        None => Congestion::Cubic,
    }
}

/// The UDP sessions of a connection, by number. A session is reached by a
/// `T`.
pub struct SessionMap<T> {
    map: HashMap<u32, T>,
}

impl<T> View for SessionMap<T> {
    type V = Map<u32, T>;

    closed spec fn view(&self) -> Map<u32, T> {
        self.map@
    }
}

impl<T> SessionMap<T> {
    /// No session.
    pub fn new() -> (r: Self)
        ensures
            r@ == Map::<u32, T>::empty(),
    {
        SessionMap { map: HashMap::new() }
    }

    /// The session of this number.
    pub fn get(&self, session_id: u32) -> (r: Option<&T>)
        ensures
            match r {
                Some(tx) => self@.contains_key(session_id) && *tx == self@[session_id],
                None => !self@.contains_key(session_id),
            },
    {
        self.map.get(&session_id)
    }

    /// Opens a session.
    pub fn insert(&mut self, session_id: u32, tx: T)
        ensures
            final(self)@ == old(self)@.insert(session_id, tx),
    {
        self.map.insert(session_id, tx);
    }

    /// Forgets a session that ended, or that takes no more frames.
    pub fn remove(&mut self, session_id: u32)
        ensures
            final(self)@ == old(self)@.remove(session_id),
    {
        self.map.remove(&session_id);
    }
}

/// What becomes of a datagram.
#[derive(Debug)]
pub enum DatagramAction {
    /// It holds no frame.
    Drop(FrameError),
    /// Its frame goes to the session that it names.
    Forward(UdpFrame),
    /// Its frame is the first of a new session.
    Open(UdpFrame),
}

/// What becomes of a datagram, over mathematical values.
pub enum DatagramView {
    Drop(FrameError),
    Forward(UdpFrameView),
    Open(UdpFrameView),
}

impl View for DatagramAction {
    type V = DatagramView;

    open spec fn view(&self) -> DatagramView {
        match self {
            DatagramAction::Drop(e) => DatagramView::Drop(*e),
            DatagramAction::Forward(frame) => DatagramView::Forward(frame@),
            DatagramAction::Open(frame) => DatagramView::Open(frame@),
        }
    }
}

/// What becomes of a datagram while the sessions of these numbers are open.
pub open spec fn datagram_action(open: Set<u32>, datagram: Seq<u8>) -> DatagramView {
    match udp_frame_of(datagram) {
        Err(e) => DatagramView::Drop(e),
        Ok(frame) => if open.contains(frame.session_id) {
            DatagramView::Forward(frame)
        } else {
            DatagramView::Open(frame)
        },
    }
}

/// Decides what becomes of a datagram.
pub fn on_datagram<T>(sessions: &SessionMap<T>, datagram: Bytes) -> (r: DatagramAction)
    ensures
        r@ == datagram_action(sessions@.dom(), bytes_of(datagram)),
{
    match parse_udp_frame(datagram) {
        Err(e) => DatagramAction::Drop(e),
        Ok(frame) => match sessions.get(frame.session_id) {
            Some(_) => DatagramAction::Forward(frame),
            None => DatagramAction::Open(frame),
        },
    }
}

/// Takes note of whether a session took the frame that was handed to it: one
/// that did not is forgotten.
pub fn after_send<T>(sessions: &mut SessionMap<T>, session_id: u32, taken: bool)
    ensures
        final(sessions)@ == if taken {
            old(sessions)@
        } else {
            old(sessions)@.remove(session_id)
        },
{
    if !taken {
        sessions.remove(session_id);
    }
}

/// The first frame of a session opens it; once it is open the frames that
/// name it go to it; and once it is forgotten the next frame opens it anew.
/// What becomes of the datagrams of other sessions does not change.
pub proof fn law_sessions<T>(sessions: Map<u32, T>, tx: T, first: Seq<u8>, next: Seq<u8>)
    requires
        datagram_action(sessions.dom(), first) is Open,
        udp_frame_of(next) is Ok,
    ensures
        ({
            let id = datagram_action(sessions.dom(), first)->Open_0.session_id;
            let frame = udp_frame_of(next)->Ok_0;
            let opened = sessions.insert(id, tx);
            &&& frame.session_id == id ==> datagram_action(opened.dom(), next)
                == DatagramView::Forward(frame)
            &&& frame.session_id == id ==> datagram_action(opened.remove(id).dom(), next)
                == DatagramView::Open(frame)
            &&& frame.session_id != id ==> datagram_action(opened.dom(), next) == datagram_action(
                sessions.dom(),
                next,
            )
            &&& opened.remove(id) == sessions
        }),
{
    let id = datagram_action(sessions.dom(), first)->Open_0.session_id;
    assert(sessions.insert(id, tx).remove(id) =~= sessions);
}

/// A datagram is dropped exactly where it holds no frame, and for the reason
/// that the frame is refused for. Any other goes with all of its frame to the
/// session that the frame names, which it opens where it is not open.
pub proof fn law_datagrams(open: Set<u32>, datagram: Seq<u8>)
    ensures
        match udp_frame_of(datagram) {
            Err(e) => datagram_action(open, datagram) == DatagramView::Drop(e),
            Ok(frame) => {
                &&& open.contains(frame.session_id) ==> datagram_action(open, datagram)
                    == DatagramView::Forward(frame)
                &&& !open.contains(frame.session_id) ==> datagram_action(open, datagram)
                    == DatagramView::Open(frame)
            },
        },
{
}

/// What becomes of a datagram is seen with the frame that it holds.
pub proof fn law_datagrams_are_seen(e: FrameError, frame: UdpFrame)
    ensures
        DatagramAction::Drop(e)@ == DatagramView::Drop(e),
        DatagramAction::Forward(frame)@ == DatagramView::Forward(frame@),
        DatagramAction::Open(frame)@ == DatagramView::Open(frame@),
{
}

/// How much a connection holds and how long it waits.
pub proof fn law_limits()
    ensures
        STREAM_RECEIVE_WINDOW == 8 * 1024 * 1024,
        CONN_RECEIVE_WINDOW == 20 * 1024 * 1024,
        MAX_IDLE_TIMEOUT_SECS == 60,
        KEEP_ALIVE_SECS == 10,
        MAX_INCOMING_STREAMS == 64,
        SESSION_QUEUE == 256,
{
}

/// The server sends at a rate of its own exactly where it is told one.
pub proof fn law_fixed_rates(rate: u64, c: Congestion)
    ensures
        fixed_rate(Congestion::Brutal(rate)) == Some(rate),
        fixed_rate(c) is None <==> c is Cubic,
{
}

} // verus!
