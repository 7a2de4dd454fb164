//! The outbound side: answers to TCP requests, UDP frames and the
//! reassembly of fragmented UDP packets.

use crate::address::{host_port_of, split_host_port, AddrError, SocketAddress};
use crate::buffer;
use crate::buffer::{be_bytes, be_value, bytes_mut_of, bytes_of, fits_buffer, pow256};
use crate::text;
use crate::text::decimal;
use crate::varint::{read_varint_bytes, varint_bytes, varint_len, varint_of, write_varint, VarintError};
use bytes::{Bytes, BytesMut};
use std::collections::HashMap;
use vstd::prelude::*;
use vstd::utf8;

verus! {

broadcast use vstd::std_specs::hash::group_hash_axioms;

/// How many seconds a target has to take a connection.
pub const CONNECT_TIMEOUT_SECS: u64 = 10;

/// After how many seconds of silence a UDP session ends.
pub const UDP_IDLE_TIMEOUT_SECS: u64 = 60;

/// The most bytes that a UDP packet can carry.
pub const UDP_MAX_PKT: usize = 65507;

/// How an attempt to connect to a target ended.
pub enum ConnectOutcome {
    Connected,
    /// The system refused, for this reason.
    Failed(String),
    TimedOut,
}

/// What a client is told about the connection that it asked for, over
/// mathematical values.
pub open spec fn told_of(outcome: ConnectOutcome) -> (bool, Seq<char>) {
    match outcome {
        ConnectOutcome::Connected => (true, "Connected"@),
        ConnectOutcome::Failed(why) => (false, why@),
        ConnectOutcome::TimedOut => (false, "connection timeout"@),
    }
}

/// What a client is told about the connection that it asked for: whether it
/// stands, and a message.
pub fn connect_reply(outcome: ConnectOutcome) -> (r: (bool, String))
    ensures
        (r.0, r.1@) == told_of(outcome),
        match outcome {
            ConnectOutcome::Connected => r.0 && r.1@ == "Connected"@,
            ConnectOutcome::Failed(why) => !r.0 && r.1@ == why@,
            ConnectOutcome::TimedOut => !r.0 && r.1@ == "connection timeout"@,
        },
{
    match outcome {
        ConnectOutcome::Connected => (true, "Connected".to_string()),
        ConnectOutcome::Failed(why) => (false, why),
        ConnectOutcome::TimedOut => (false, "connection timeout".to_string()),
    }
}

/// What happened to one direction of a connection.
#[derive(Clone, Copy, Debug, PartialEq, Eq, Structural)]
pub enum PumpEvent {
    /// So many bytes were read.
    Read(usize),
    /// There is nothing more to read.
    End,
    /// What was read is written.
    Written,
    /// Reading or writing failed.
    Failed,
}

/// What one direction of a connection does next.
#[derive(Clone, Copy, Debug, PartialEq, Eq, Structural)]
pub enum PumpAction {
    /// It reads.
    Read,
    /// It writes so many of the bytes that were read.
    Write(usize),
    /// It tells the receiver that nothing more will come.
    Finish,
}

/// What follows on an event of one direction of a connection.
pub open spec fn pump_action(event: PumpEvent) -> PumpAction {
    match event {
        PumpEvent::Read(n) => if n > 0 {
            PumpAction::Write(n)
        } else {
            PumpAction::Finish
        },
        PumpEvent::Written => PumpAction::Read,
        PumpEvent::End => PumpAction::Finish,
        PumpEvent::Failed => PumpAction::Finish,
    }
}

/// Passes bytes on from one end of a connection to the other: what is read is
/// written before anything else is read, until nothing is read or something
/// fails.
pub fn pump_step(event: PumpEvent) -> (r: PumpAction)
    ensures
        r == pump_action(event),
        r == match event {
            PumpEvent::Read(n) => if n > 0 {
                PumpAction::Write(n)
            } else {
                PumpAction::Finish
            },
            PumpEvent::Written => PumpAction::Read,
            PumpEvent::End => PumpAction::Finish,
            PumpEvent::Failed => PumpAction::Finish,
        },
{
    match event {
        PumpEvent::Read(n) => if n > 0 {
            PumpAction::Write(n)
        } else {
            PumpAction::Finish
        },
        PumpEvent::Written => PumpAction::Read,
        PumpEvent::End => PumpAction::Finish,
        PumpEvent::Failed => PumpAction::Finish,
    }
}

/// One UDP frame of a client: a packet, or one fragment of it.
#[derive(Debug)]
pub struct UdpFrame {
    pub session_id: u32,
    pub packet_id: u16,
    pub frag_id: u8,
    pub frag_total: u8,
    pub addr: String,
    pub port: u16,
    pub payload: Bytes,
}

/// A UDP frame, over mathematical values.
pub struct UdpFrameView {
    pub session_id: u32,
    pub packet_id: u16,
    pub frag_id: u8,
    pub frag_total: u8,
    pub addr: Seq<char>,
    pub port: u16,
    pub payload: Seq<u8>,
}

impl View for UdpFrame {
    type V = UdpFrameView;

    open spec fn view(&self) -> UdpFrameView {
        UdpFrameView {
            session_id: self.session_id,
            packet_id: self.packet_id,
            frag_id: self.frag_id,
            frag_total: self.frag_total,
            addr: self.addr@,
            port: self.port,
            payload: bytes_of(self.payload),
        }
    }
}

/// The text of an address and a port, with a colon between.
pub open spec fn target_of(addr: Seq<char>, port: u16) -> Seq<char> {
    addr + seq![':'] + decimal(port as nat)
}

/// Where a session sends its packets: the address and the port of its first
/// frame, with a colon between.
pub fn udp_target(frame: &UdpFrame) -> (r: String)
    ensures
        r@ == target_of(frame@.addr, frame@.port),
        r@ == frame@.addr + seq![':'] + decimal(frame@.port as nat),
{
    let mut r = frame.addr.clone();
    r.push(':');
    text::push_decimal(&mut r, frame.port as u64);
    assert(r@ =~= frame@.addr + seq![':'] + decimal(frame@.port as nat));
    r
}

/// Why bytes are no UDP frame.
#[derive(Clone, Copy, Debug, PartialEq, Eq, Structural)]
pub enum FrameError {
    /// The fixed fields are not all there.
    TooShort,
    /// The length of the address cannot be read.
    AddrLen(VarintError),
    /// The address has no bytes, or more than 2048.
    BadAddrLen,
    /// The bytes end inside the address.
    AddrTruncated,
    /// The address is no UTF-8.
    NotUtf8,
    /// The address names no host and port.
    BadAddr(AddrError),
}

/// The UDP frame that bytes hold: session (4 bytes), packet (2 bytes),
/// fragment and number of fragments (1 byte each), the length of the address
/// as a variable-length integer, the address as `host:port`, and the payload.
pub open spec fn udp_frame_of(s: Seq<u8>) -> Result<UdpFrameView, FrameError> {
    if s.len() < 8 {
        Err(FrameError::TooShort)
    } else {
        match varint_of(s.skip(8)) {
            Err(e) => Err(FrameError::AddrLen(e)),
            Ok((n, used)) => if n == 0 || n > 2048 {
                Err(FrameError::BadAddrLen)
            } else if s.len() < 8 + used + n {
                Err(FrameError::AddrTruncated)
            } else {
                let addr = s.subrange(8 + used as int, 8 + used + n as int);
                if !utf8::valid_utf8(addr) {
                    Err(FrameError::NotUtf8)
                } else {
                    match host_port_of(utf8::decode_utf8(addr)) {
                        Err(e) => Err(FrameError::BadAddr(e)),
                        Ok((host, port)) => Ok(
                            UdpFrameView {
                                session_id: be_value(s.take(4)) as u32,
                                packet_id: be_value(s.subrange(4, 6)) as u16,
                                frag_id: s[6],
                                frag_total: s[7],
                                addr: host,
                                port,
                                payload: s.skip(8 + used + n as int),
                            },
                        ),
                    }
                }
            },
        }
    }
}

/// Reads the UDP frame that a datagram holds.
pub fn parse_udp_frame(data: Bytes) -> (r: Result<UdpFrame, FrameError>)
    ensures
        match (r, udp_frame_of(bytes_of(data))) {
            (Ok(frame), Ok(view)) => frame@ == view,
            (Err(e), Err(why)) => e == why,
            _ => false,
        },
{
    let ghost s = bytes_of(data);
    let mut data = data;
    if data.len() < 8 {
        return Err(FrameError::TooShort);
    }
    let session_id = buffer::get_u32(&mut data);
    let packet_id = buffer::get_u16(&mut data);
    let frag_id = buffer::get_u8(&mut data);
    let frag_total = buffer::get_u8(&mut data);
    proof {
        assert(s.skip(4).take(2) =~= s.subrange(4, 6));
        assert(s.skip(4).skip(2).skip(1).skip(1) =~= s.skip(8));
    }
    let addr_len = match read_varint_bytes(&mut data) {
        Ok(n) => n,
        Err(e) => return Err(FrameError::AddrLen(e)),
    };
    if addr_len == 0 || addr_len > 2048 {
        return Err(FrameError::BadAddrLen);
    }
    let addr_len = addr_len as usize;
    let ghost used = varint_len(s[8]);
    assert(bytes_of(data) =~= s.skip(8 + used as int));
    if data.len() < addr_len {
        return Err(FrameError::AddrTruncated);
    }
    let addr_bytes = data.split_to(addr_len);
    assert(bytes_of(addr_bytes) =~= s.subrange(8 + used as int, 8 + used + addr_len as int));
    assert(bytes_of(data) =~= s.skip(8 + used + addr_len as int));
    let addr_text = match text::string_from_utf8(
        vstd::slice::slice_to_vec(buffer::bytes_slice(&addr_bytes)),
    ) {
        Some(t) => t,
        None => return Err(FrameError::NotUtf8),
    };
    match split_host_port(addr_text.as_str()) {
        Ok((addr, port)) => Ok(
            UdpFrame { session_id, packet_id, frag_id, frag_total, addr, port, payload: data },
        ),
        Err(e) => Err(FrameError::BadAddr(e)),
    }
}

/// The frame that carries a packet from `src` back to a client: packet 0,
/// whole.
pub open spec fn udp_reply(session_id: u32, src: SocketAddress, payload: Seq<u8>) -> Seq<u8> {
    let addr = utf8::encode_utf8(src.chars());
    be_bytes(session_id as nat, 4) + be_bytes(0, 2) + seq![0u8, 1u8] + varint_bytes(
        addr.len() as u64,
    ) + addr + payload
}

/// Builds the frame that carries a packet from `src` back to a client.
pub fn build_udp_frame(session_id: u32, src_addr: SocketAddress, payload: &[u8]) -> (r: Bytes)
    requires
        fits_buffer(payload@.len() + 80),
    ensures
        bytes_of(r) == udp_reply(session_id, src_addr, payload@),
{
    let addr = src_addr.to_text();
    proof {
        crate::address::law_address_text(src_addr);
        utf8::is_ascii_chars_encode_utf8(src_addr.chars());
    }
    let addr_bytes = addr.as_str().as_bytes();
    let mut buf = BytesMut::new();
    buffer::put_u32(&mut buf, session_id);
    proof {
        reveal_with_fuel(pow256, 5);
        crate::buffer::lemma_be_roundtrip(0, 2);
        crate::buffer::lemma_be_roundtrip(session_id as nat, 4);
    }
    buffer::put_u16(&mut buf, 0);
    buffer::put_u8(&mut buf, 0);
    buffer::put_u8(&mut buf, 1);
    write_varint(&mut buf, addr_bytes.len() as u64);
    proof {
        reveal_with_fuel(be_bytes, 2);
    }
    buf.extend_from_slice(addr_bytes);
    buf.extend_from_slice(payload);
    assert(bytes_mut_of(buf) =~= udp_reply(session_id, src_addr, payload@));
    buf.freeze()
}

/// What happened to a UDP session.
#[derive(Clone, Copy, Debug, PartialEq, Eq, Structural)]
pub enum SessionEvent {
    /// A frame of the client came.
    Frame,
    /// The client sends no more frames.
    Closed,
    /// A packet of the target came.
    Packet,
    /// What was to be sent is sent.
    Sent,
    /// A frame could not be sent to the client.
    SendFailed,
    /// Nothing can be received from the target.
    ReceiveFailed,
    /// Nothing came for too long.
    Idle,
}

/// What a UDP session does next.
#[derive(Clone, Copy, Debug, PartialEq, Eq, Structural)]
pub enum SessionAction {
    /// It sends the packet of the frame on to the target.
    Relay,
    /// It sends the packet in a frame to the client.
    SendFrame,
    /// It waits for what comes next.
    Wait,
    /// It ends.
    End,
}

/// Decides what a UDP session does next.
pub fn session_step(event: SessionEvent) -> (r: SessionAction)
    ensures
        r == match event {
            SessionEvent::Frame => SessionAction::Relay,
            SessionEvent::Closed => SessionAction::End,
            SessionEvent::Packet => SessionAction::SendFrame,
            SessionEvent::Sent => SessionAction::Wait,
            SessionEvent::SendFailed => SessionAction::End,
            SessionEvent::ReceiveFailed => SessionAction::End,
            SessionEvent::Idle => SessionAction::End,
        },
{
    match event {
        SessionEvent::Frame => SessionAction::Relay,
        SessionEvent::Packet => SessionAction::SendFrame,
        SessionEvent::Sent => SessionAction::Wait,
        SessionEvent::Closed | SessionEvent::SendFailed | SessionEvent::ReceiveFailed
        | SessionEvent::Idle => SessionAction::End,
    }
}

/// A packet of which fragments are still missing, over mathematical values.
pub struct FragView {
    pub total: u8,
    pub received: u8,
    pub frags: Map<u8, Seq<u8>>,
    pub addr: Seq<char>,
    pub port: u16,
}

/// The fragments with numbers below `n`, one after the other by number.
pub open spec fn in_order(frags: Map<u8, Seq<u8>>, n: nat) -> Seq<u8>
    decreases n,
{
    if n == 0 {
        Seq::empty()
    } else {
        let id = (n - 1) as u8;
        let front = in_order(frags, (n - 1) as nat);
        if frags.contains_key(id) {
            front + frags[id]
        } else {
            front
        }
    }
}

impl FragView {
    /// No fragment yet.
    pub open spec fn start(total: u8, addr: Seq<char>, port: u16) -> FragView {
        FragView { total, received: 0, frags: Map::empty(), addr, port }
    }

    /// All bytes held, by the number of the fragment.
    pub open spec fn bytes(self) -> Seq<u8> {
        in_order(self.frags, 256)
    }

    /// Whether a fragment of this number belongs to the packet. Where no number
    /// of fragments was announced, each does.
    pub open spec fn takes(self, frag_id: u8) -> bool {
        self.total == 0 || frag_id < self.total
    }

    /// With one fragment more. A number that was there before keeps its first
    /// payload, and a number that does not belong to the packet is left out;
    /// neither is counted.
    pub open spec fn with(self, frag_id: u8, payload: Seq<u8>) -> FragView {
        if self.frags.contains_key(frag_id) || !self.takes(frag_id) {
            self
        } else {
            FragView {
                received: (self.received + 1) as u8,
                frags: self.frags.insert(frag_id, payload),
                ..self
            }
        }
    }

    /// Whether every fragment came that was announced.
    pub open spec fn complete(self) -> bool {
        forall|i: u8| i < self.total ==> self.frags.contains_key(i)
    }

    /// The count is that of the fragments held, and each of them belongs to the
    /// packet.
    pub open spec fn wf(self) -> bool {
        &&& self.frags.dom().finite()
        &&& self.received == self.frags.dom().len()
        &&& forall|i: u8| #[trigger] self.frags.contains_key(i) ==> self.takes(i)
    }
}

/// Of the numbers below `n` a set holds at most `n`, and `n` where it holds all
/// of them.
proof fn lemma_numbers_below(s: Set<u8>, n: nat)
    requires
        n <= 255,
        s.finite(),
        forall|i: u8| #[trigger] s.contains(i) ==> i < n,
    ensures
        s.len() <= n,
        s.len() == n <==> forall|i: u8| i < n ==> s.contains(i),
    decreases n,
{
    if n == 0 {
        assert(s =~= Set::empty());
    } else {
        let last = (n - 1) as u8;
        let rest = s.remove(last);
        lemma_numbers_below(rest, (n - 1) as nat);
        if s.len() == n {
            assert forall|i: u8| i < n implies s.contains(i) by {
                assert(i < n - 1 ==> rest.contains(i));
            }
        }
        if forall|i: u8| i < n ==> s.contains(i) {
            assert forall|i: u8| i < n - 1 implies rest.contains(i) by {
                assert(s.contains(i));
            }
            assert(s.contains(last));
        }
    }
}

/// A packet of which fragments are still missing.
pub struct FragBuffer {
    total: u8,
    received: u8,
    frags: HashMap<u8, Bytes>,
    addr: String,
    port: u16,
}

impl View for FragBuffer {
    type V = FragView;

    closed spec fn view(&self) -> FragView {
        FragView {
            total: self.total,
            received: self.received,
            frags: self.frags@.map_values(|b: Bytes| bytes_of(b)),
            addr: self.addr@,
            port: self.port,
        }
    }
}

/// Fewer fragments make no more bytes.
proof fn lemma_in_order_grows(frags: Map<u8, Seq<u8>>, a: nat, b: nat)
    requires
        a <= b,
    ensures
        in_order(frags, a).len() <= in_order(frags, b).len(),
    decreases b - a,
{
    if a < b {
        lemma_in_order_grows(frags, a, (b - 1) as nat);
    }
}

impl FragBuffer {
    /// A packet of `total` fragments, none of which has come.
    pub fn new(total: u8, addr: String, port: u16) -> (r: Self)
        ensures
            r@ == FragView::start(total, addr@, port),
            r@.wf(),
    {
        let r = FragBuffer { total, received: 0, frags: HashMap::new(), addr, port };
        assert(r@.frags =~= Map::empty());
        r
    }

    /// How many bytes the fragments hold that have come.
    pub fn buffered_len(&self) -> (n: Option<usize>)
        ensures
            match n {
                Some(n) => n == self@.bytes().len(),
                None => self@.bytes().len() > usize::MAX,
            },
    {
        let mut n: usize = 0;
        let mut id: u16 = 0;
        while id < 256
            invariant
                id <= 256,
                n == in_order(self@.frags, id as nat).len(),
            decreases 256 - id,
        {
            match self.frags.get(&(id as u8)) {
                Some(b) => {
                    match n.checked_add(b.len()) {
                        Some(m) => n = m,
                        None => {
                            proof {
                                lemma_in_order_grows(self@.frags, (id + 1) as nat, 256);
                            }
                            return None;
                        },
                    }
                },
                None => {},
            }
            id += 1;
        }
        Some(n)
    }

    /// The bytes held, by the number of the fragment.
    fn assemble(&self) -> (r: Bytes)
        requires
            fits_buffer(self@.bytes().len()),
        ensures
            bytes_of(r) == self@.bytes(),
    {
        let mut buf = BytesMut::new();
        let mut id: u16 = 0;
        while id < 256
            invariant
                id <= 256,
                fits_buffer(self@.bytes().len()),
                bytes_mut_of(buf) == in_order(self@.frags, id as nat),
            decreases 256 - id,
        {
            proof {
                lemma_in_order_grows(self@.frags, (id + 1) as nat, 256);
            }
            match self.frags.get(&(id as u8)) {
                Some(b) => buf.extend_from_slice(buffer::bytes_slice(b)),
                None => {},
            }
            id += 1;
        }
        buf.freeze()
    }

    /// Takes one fragment. With the last one that was missing comes the packet,
    /// and where it goes.
    pub fn insert(&mut self, frag_id: u8, payload: Bytes) -> (r: Option<(Bytes, String, u16)>)
        requires
            old(self)@.wf(),
            old(self)@.total > 0 || old(self)@.received < 255,
            fits_buffer(old(self)@.with(frag_id, bytes_of(payload)).bytes().len()),
        ensures
            final(self)@.wf(),
            final(self)@ == old(self)@.with(frag_id, bytes_of(payload)),
            match r {
                Some((packet, addr, port)) => {
                    &&& final(self)@.complete()
                    &&& bytes_of(packet) == final(self)@.bytes()
                    &&& addr@ == old(self)@.addr
                    &&& port == old(self)@.port
                },
                None => !final(self)@.complete(),
            },
    {
        let ghost before = self@;
        if (self.total == 0 || frag_id < self.total) && !self.frags.contains_key(&frag_id) {
            proof {
                if before.total > 0 {
                    lemma_numbers_below(before.frags.dom(), before.total as nat);
                }
                assert(!before.frags.dom().contains(frag_id));
            }
            self.frags.insert(frag_id, payload);
            self.received += 1;
            assert(self@.frags =~= before.frags.insert(frag_id, bytes_of(payload)));
        }
        proof {
            if self@.total > 0 {
                lemma_numbers_below(self@.frags.dom(), self@.total as nat);
            }
            if self@.complete() {
                assert forall|i: u8| i < self@.total implies self@.frags.dom().contains(i) by {
                    assert(self@.frags.contains_key(i));
                }
            }
            if self@.received == self@.total {
                assert forall|i: u8| i < self@.total implies self@.frags.contains_key(i) by {
                    assert(self@.frags.dom().contains(i));
                }
            }
        }
        if self.received >= self.total {
            Some((self.assemble(), self.addr.clone(), self.port))
        } else {
            None
        }
    }
}

/// The packets of one session of which fragments are still missing.
pub open spec fn pending(t: Map<u16, FragView>) -> bool {
    forall|id: u16| #[trigger] t.contains_key(id) ==> t[id].wf() && !t[id].complete()
}

/// The packet that a fragment belongs to, once the fragment has come.
pub open spec fn joined(t: Map<u16, FragView>, f: UdpFrameView) -> FragView {
    let before = if t.contains_key(f.packet_id) {
        t[f.packet_id]
    } else {
        FragView::start(f.frag_total, f.addr, f.port)
    };
    before.with(f.frag_id, f.payload)
}

/// What a frame does to the packets of its session, and the payload that it
/// sends on. A whole packet goes on at once; a fragment waits until its
/// packet is complete, and the packet goes on then.
pub open spec fn relay_step(t: Map<u16, FragView>, f: UdpFrameView) -> (
    Map<u16, FragView>,
    Option<Seq<u8>>,
) {
    if f.frag_total <= 1 {
        (t, Some(f.payload))
    } else if joined(t, f).complete() {
        (t.remove(f.packet_id), Some(joined(t, f).bytes()))
    } else {
        (t.insert(f.packet_id, joined(t, f)), None)
    }
}

/// The packets of one session of which fragments are still missing, by
/// packet number.
pub struct FragTable {
    table: HashMap<u16, FragBuffer>,
}

impl View for FragTable {
    type V = Map<u16, FragView>;

    closed spec fn view(&self) -> Map<u16, FragView> {
        self.table@.map_values(|b: FragBuffer| b@)
    }
}

/// A new fragment adds its bytes to those of its packet.
proof fn lemma_in_order_insert(frags: Map<u8, Seq<u8>>, id: u8, payload: Seq<u8>, n: nat)
    requires
        !frags.contains_key(id),
        n <= 256,
    ensures
        in_order(frags.insert(id, payload), n).len() == in_order(frags, n).len() + if id < n {
            payload.len()
        } else {
            0
        },
    decreases n,
{
    if n > 0 {
        lemma_in_order_insert(frags, id, payload, (n - 1) as nat);
    }
}

impl FragTable {
    /// No packet is being put together.
    pub fn new() -> (r: Self)
        ensures
            r@ == Map::<u16, FragView>::empty(),
            pending(r@),
    {
        let r = FragTable { table: HashMap::new() };
        assert(r@ =~= Map::empty());
        r
    }

    /// Whether the packet that a frame belongs to stays within the length
    /// that a buffer can reach.
    pub fn has_room(&self, frame: &UdpFrame) -> (r: bool)
        ensures
            r == fits_buffer(joined(self@, frame@).bytes().len()),
    {
        let limit: usize = isize::MAX as usize / 2;
        let ghost f = frame@;
        let new_len: usize = frame.payload.len();
        match self.table.get(&frame.packet_id) {
            Some(buf) => {
                proof {
                    if !buf@.frags.contains_key(f.frag_id) {
                        lemma_in_order_insert(buf@.frags, f.frag_id, f.payload, 256);
                    }
                }
                match buf.buffered_len() {
                    Some(n) => {
                        if buf.frags.contains_key(&frame.frag_id) || (buf.total > 0
                            && frame.frag_id >= buf.total) {
                            n <= limit
                        } else {
                            n <= limit && new_len <= limit - n
                        }
                    },
                    None => false,
                }
            },
            None => {
                proof {
                    let none = Map::<u8, Seq<u8>>::empty();
                    lemma_in_order_insert(none, f.frag_id, f.payload, 256);
                    lemma_in_order_none(256);
                }
                (frame.frag_total > 0 && frame.frag_id >= frame.frag_total) || new_len <= limit
            },
        }
    }
}

proof fn lemma_in_order_none(n: nat)
    ensures
        in_order(Map::<u8, Seq<u8>>::empty(), n).len() == 0,
    decreases n,
{
    if n > 0 {
        lemma_in_order_none((n - 1) as nat);
    }
}

/// Takes one frame of a session, and gives the payload to send on, where
/// there is one.
pub fn relay_frame(frame: UdpFrame, frag_table: &mut FragTable) -> (r: Option<Bytes>)
    requires
        pending(old(frag_table)@),
        frame.frag_total > 1 ==> fits_buffer(joined(old(frag_table)@, frame@).bytes().len()),
    ensures
        pending(final(frag_table)@),
        match (r, relay_step(old(frag_table)@, frame@)) {
            (Some(packet), (after, Some(bytes))) => {
                &&& final(frag_table)@ == after
                &&& bytes_of(packet) == bytes
            },
            (None, (after, None)) => final(frag_table)@ == after,
            _ => false,
        },
{
    if frame.frag_total <= 1 {
        return Some(frame.payload);
    }
    let ghost t = frag_table@;
    let ghost f = frame@;
    let UdpFrame { session_id: _, packet_id, frag_id, frag_total, addr, port, payload } = frame;
    let mut buf = match frag_table.table.remove(&packet_id) {
        Some(b) => b,
        None => FragBuffer::new(frag_total, addr, port),
    };
    let done = buf.insert(frag_id, payload);
    match done {
        Some((packet, _, _)) => {
            assert(frag_table@ =~= t.remove(packet_id));
            Some(packet)
        },
        None => {
            frag_table.table.insert(packet_id, buf);
            assert(frag_table@ =~= t.insert(packet_id, joined(t, f)));
            None
        },
    }
}

/// A reply frame reads back as what it was built from: the session, one whole
/// packet, the address of the sender and the payload.
pub proof fn law_udp_reply_reads_back(session_id: u32, src: SocketAddress, payload: Seq<u8>)
    ensures
        udp_frame_of(udp_reply(session_id, src, payload)) == Ok::<UdpFrameView, FrameError>(
            UdpFrameView {
                session_id,
                packet_id: 0,
                frag_id: 0,
                frag_total: 1,
                addr: src.host_chars(),
                port: src.port_of(),
                payload,
            },
        ),
{
    let s = udp_reply(session_id, src, payload);
    let addr = utf8::encode_utf8(src.chars());
    let len = varint_bytes(addr.len() as u64);
    crate::address::law_address_text(src);
    utf8::is_ascii_chars_encode_utf8(src.chars());
    utf8::encode_utf8_decode_utf8(src.chars());
    utf8::encode_utf8_valid_utf8(src.chars());
    reveal_with_fuel(pow256, 5);
    crate::buffer::lemma_be_roundtrip(session_id as nat, 4);
    crate::buffer::lemma_be_roundtrip(0, 2);
    assert(s.skip(8) =~= len + (addr + payload));
    crate::varint::law_varint_roundtrip(addr.len() as u64, addr + payload);
    let used = len.len() as int;
    assert(s.subrange(8 + used, 8 + used + addr.len()) =~= addr);
    assert(s.skip(8 + used + addr.len()) =~= payload);
    assert(s.take(4) =~= be_bytes(session_id as nat, 4));
    assert(s.subrange(4, 6) =~= be_bytes(0, 2));
}

/// What the frames of a session do one after the other to the packets that
/// are being put together.
pub open spec fn relay_all(t: Map<u16, FragView>, fs: Seq<UdpFrameView>) -> Map<u16, FragView>
    decreases fs.len(),
{
    if fs.len() == 0 {
        t
    } else {
        relay_step(relay_all(t, fs.drop_last()), fs.last()).0
    }
}

/// Whether every number below `n` is that of one of the frames.
pub open spec fn covers(fs: Seq<UdpFrameView>, n: nat) -> bool {
    forall|x: u8| x < n ==> #[trigger] has_number(fs, x)
}

/// Whether a number is that of one of the frames.
pub open spec fn has_number(fs: Seq<UdpFrameView>, x: u8) -> bool {
    exists|i: int| 0 <= i < fs.len() && (#[trigger] fs[i]).frag_id == x
}

/// `fs` are fragments of one packet, in some order and with repeats; `pieces`
/// are the payloads by number, of each number the one that came first. The
/// last of the frames is the last that was missing.
pub open spec fn fragments_of(fs: Seq<UdpFrameView>, id: u16, pieces: Seq<Seq<u8>>) -> bool {
    &&& fs.len() > 0
    &&& forall|i: int|
        0 <= i < fs.len() ==> (#[trigger] fs[i]).packet_id == id && fs[i].frag_total
            == pieces.len()
    &&& forall|i: int|
        0 <= i < fs.len() && (#[trigger] fs[i]).frag_id < pieces.len() && !has_number(
            fs.take(i),
            fs[i].frag_id,
        ) ==> fs[i].payload == pieces[fs[i].frag_id as int]
    &&& covers(fs, pieces.len())
    &&& !covers(fs.drop_last(), pieces.len())
}

/// One frame more has the number of that frame more.
proof fn lemma_one_more(fs: Seq<UdpFrameView>, k: int, x: u8)
    requires
        0 < k <= fs.len(),
    ensures
        has_number(fs.take(k), x) <==> has_number(fs.take(k - 1), x) || fs[k - 1].frag_id == x,
{
    let now = fs.take(k);
    let then = fs.take(k - 1);
    if has_number(then, x) {
        let i = choose|i: int| 0 <= i < then.len() && (#[trigger] then[i]).frag_id == x;
        assert(now[i].frag_id == x);
    }
    if fs[k - 1].frag_id == x {
        assert(now[k - 1].frag_id == x);
    }
    if has_number(now, x) {
        let i = choose|i: int| 0 <= i < now.len() && (#[trigger] now[i]).frag_id == x;
        if i < k - 1 {
            assert(then[i].frag_id == x);
        }
    }
}

/// What a packet holds once these frames have come.
spec fn holds(v: FragView, fs: Seq<UdpFrameView>, pieces: Seq<Seq<u8>>) -> bool {
    &&& v.total == pieces.len()
    &&& forall|x: u8| #[trigger]
        v.frags.contains_key(x) <==> x < pieces.len() && has_number(fs, x)
    &&& forall|x: u8| #[trigger] v.frags.contains_key(x) ==> v.frags[x] == pieces[x as int]
}

/// The packet that one frame more is joined to.
proof fn lemma_joined(
    before: Map<u16, FragView>,
    fs: Seq<UdpFrameView>,
    id: u16,
    pieces: Seq<Seq<u8>>,
    k: int,
)
    requires
        2 <= pieces.len() <= 255,
        fragments_of(fs, id, pieces),
        0 < k <= fs.len(),
        k == 1 ==> !before.contains_key(id),
        k > 1 ==> before.contains_key(id) && holds(before[id], fs.take(k - 1), pieces),
    ensures
        holds(joined(before, fs[k - 1]), fs.take(k), pieces),
        joined(before, fs[k - 1]).complete() <==> covers(fs.take(k), pieces.len()),
{
    let f = fs[k - 1];
    let v = joined(before, f);
    let n = pieces.len();
    if k == 1 {
        assert(fs.take(0) =~= Seq::empty());
    }
    assert forall|x: u8| #[trigger] v.frags.contains_key(x) <==> x < n && has_number(
        fs.take(k),
        x,
    ) by {
        lemma_one_more(fs, k, x);
    }
    assert forall|x: u8| #[trigger] v.frags.contains_key(x) implies v.frags[x]
        == pieces[x as int] by {
        if k > 1 && before[id].frags.contains_key(x) {
        } else {
            assert(x == f.frag_id);
            assert(!has_number(fs.take(k - 1), x));
        }
    }
    if v.complete() {
        assert forall|x: u8| x < n implies #[trigger] has_number(fs.take(k), x) by {
            assert(v.frags.contains_key(x));
        }
    }
    if covers(fs.take(k), n) {
        assert forall|x: u8| x < v.total implies v.frags.contains_key(x) by {
            assert(has_number(fs.take(k), x));
        }
    }
}

/// Fewer frames have no more numbers.
proof fn lemma_not_yet(fs: Seq<UdpFrameView>, n: nat, k: int)
    requires
        0 <= k < fs.len(),
        !covers(fs.drop_last(), n),
    ensures
        !covers(fs.take(k), n),
{
    let x = choose|x: u8| x < n && !#[trigger] has_number(fs.drop_last(), x);
    if has_number(fs.take(k), x) {
        let i = choose|i: int| 0 <= i < fs.take(k).len() && (#[trigger] fs.take(k)[i]).frag_id == x;
        assert(fs.drop_last()[i].frag_id == x);
    }
}

/// What is held after the first `k` fragments of a packet.
proof fn lemma_partial(
    t: Map<u16, FragView>,
    fs: Seq<UdpFrameView>,
    id: u16,
    pieces: Seq<Seq<u8>>,
    k: int,
)
    requires
        2 <= pieces.len() <= 255,
        fragments_of(fs, id, pieces),
        !t.contains_key(id),
        0 < k < fs.len(),
    ensures
        ({
            let after = relay_all(t, fs.take(k));
            &&& after == t.insert(id, after[id])
            &&& holds(after[id], fs.take(k), pieces)
        }),
        relay_step(relay_all(t, fs.take(k - 1)), fs[k - 1]).1 is None,
    decreases k,
{
    let f = fs[k - 1];
    let before = relay_all(t, fs.take(k - 1));
    assert(fs.take(k).drop_last() =~= fs.take(k - 1));
    assert(fs.take(k).last() == f);
    if k == 1 {
        assert(fs.take(0) =~= Seq::empty());
        assert(before == t);
    } else {
        lemma_partial(t, fs, id, pieces, k - 1);
        assert(before.contains_key(id));
    }
    lemma_joined(before, fs, id, pieces, k);
    lemma_not_yet(fs, pieces.len(), k);
    let after = relay_all(t, fs.take(k));
    assert(after == before.insert(id, joined(before, f)));
    assert(after =~= t.insert(id, after[id]));
}

/// Where every number has its piece, the pieces come one after the other.
proof fn lemma_in_order_pieces(frags: Map<u8, Seq<u8>>, pieces: Seq<Seq<u8>>, n: nat)
    requires
        pieces.len() <= 255,
        n <= 256,
        forall|x: u8| #[trigger] frags.contains_key(x) <==> x < pieces.len(),
        forall|x: u8| #[trigger] frags.contains_key(x) ==> frags[x] == pieces[x as int],
    ensures
        in_order(frags, n) == if n <= pieces.len() {
            pieces.take(n as int).flatten()
        } else {
            pieces.flatten()
        },
    decreases n,
{
    if n == 0 {
        assert(pieces.take(0) =~= Seq::empty());
    } else {
        lemma_in_order_pieces(frags, pieces, (n - 1) as nat);
        let id = (n - 1) as u8;
        if n <= pieces.len() {
            assert(frags.contains_key(id));
            let p = pieces.take(n as int);
            assert(p.drop_last() =~= pieces.take(n - 1));
            p.lemma_flatten_and_flatten_alt_are_equivalent();
            p.drop_last().lemma_flatten_and_flatten_alt_are_equivalent();
            assert(p.last() == frags[id]);
        } else {
            assert(!frags.contains_key(id));
            assert(pieces.take(pieces.len() as int) =~= pieces);
        }
    }
}

/// A packet that comes in fragments, in whatever order and with whatever
/// repeats among them, is sent on once, with the last fragment that was missing
/// and as the pieces one after the other by number; then nothing of it is left.
pub proof fn law_fragments_reassemble(
    t: Map<u16, FragView>,
    fs: Seq<UdpFrameView>,
    id: u16,
    pieces: Seq<Seq<u8>>,
)
    requires
        2 <= pieces.len() <= 255,
        fragments_of(fs, id, pieces),
        !t.contains_key(id),
    ensures
        forall|k: int|
            0 <= k < fs.len() - 1 ==> (#[trigger] relay_step(
                relay_all(t, fs.take(k)),
                fs[k],
            )).1 is None,
        relay_step(relay_all(t, fs.drop_last()), fs.last()).1 == Some(pieces.flatten()),
        relay_all(t, fs) == t,
{
    assert forall|k: int| 0 <= k < fs.len() - 1 implies (#[trigger] relay_step(
        relay_all(t, fs.take(k)),
        fs[k],
    )).1 is None by {
        lemma_partial(t, fs, id, pieces, k + 1);
    }
    let n = fs.len() as int;
    assert(fs.drop_last() =~= fs.take(n - 1));
    assert(fs.take(n) =~= fs);
    let before = relay_all(t, fs.drop_last());
    let f = fs.last();
    assert(f == fs[n - 1]);
    if n > 1 {
        lemma_partial(t, fs, id, pieces, n - 1);
        assert(before.contains_key(id));
    }
    lemma_joined(before, fs, id, pieces, n);
    let whole = joined(before, f);
    assert forall|x: u8| #[trigger] whole.frags.contains_key(x) <==> x < pieces.len() by {
        if x < pieces.len() {
            assert(has_number(fs, x));
        }
    }
    lemma_in_order_pieces(whole.frags, pieces, 256);
    assert(before.remove(id) =~= t);
}

/// Nothing of a packet is sent on while one of its fragments is missing, and
/// what is held of it is kept.
pub proof fn law_nothing_is_sent_early(t: Map<u16, FragView>, f: UdpFrameView, missing: u8)
    requires
        f.frag_total > 1,
        missing < joined(t, f).total,
        !joined(t, f).frags.contains_key(missing),
    ensures
        relay_step(t, f).1 is None,
        relay_step(t, f).0 == t.insert(f.packet_id, joined(t, f)),
{
}

/// A fragment that came before changes nothing of what is held of its packet.
pub proof fn law_repeats_change_nothing(t: Map<u16, FragView>, f: UdpFrameView)
    requires
        pending(t),
        f.frag_total > 1,
        t.contains_key(f.packet_id),
        t[f.packet_id].frags.contains_key(f.frag_id),
    ensures
        relay_step(t, f).0 == t,
        relay_step(t, f).1 is None,
{
    assert(t.insert(f.packet_id, t[f.packet_id]) =~= t);
}

/// A frame touches no packet but its own, and what is sent on depends on no
/// other.
pub proof fn law_packets_are_independent(
    t: Map<u16, FragView>,
    u: Map<u16, FragView>,
    f: UdpFrameView,
    other: u16,
)
    requires
        other != f.packet_id,
        t.contains_key(f.packet_id) == u.contains_key(f.packet_id),
        t.contains_key(f.packet_id) ==> t[f.packet_id] == u[f.packet_id],
    ensures
        relay_step(t, f).0.contains_key(other) == t.contains_key(other),
        t.contains_key(other) ==> relay_step(t, f).0[other] == t[other],
        relay_step(t, f).1 == relay_step(u, f).1,
{
}

/// Frames of other packets may come in between: what is held of a packet
/// after all frames is what its own frames alone leave of it.
pub proof fn law_interleaving_changes_nothing(
    t: Map<u16, FragView>,
    fs: Seq<UdpFrameView>,
    id: u16,
)
    ensures
        ({
            let own = fs.filter(|f: UdpFrameView| f.packet_id == id);
            &&& relay_all(t, fs).contains_key(id) == relay_all(t, own).contains_key(id)
            &&& relay_all(t, fs).contains_key(id) ==> relay_all(t, fs)[id] == relay_all(t, own)[id]
        }),
    decreases fs.len(),
{
    reveal(Seq::filter);
    let own = fs.filter(|f: UdpFrameView| f.packet_id == id);
    if fs.len() > 0 {
        law_interleaving_changes_nothing(t, fs.drop_last(), id);
        let before = fs.drop_last().filter(|f: UdpFrameView| f.packet_id == id);
        if fs.last().packet_id == id {
            assert(own =~= before.push(fs.last()));
            assert(own.drop_last() =~= before);
        } else {
            assert(own =~= before);
        }
    }
}

/// A packet that comes whole is sent on as it came, and touches nothing.
pub proof fn law_whole_packets_pass(t: Map<u16, FragView>, f: UdpFrameView)
    requires
        f.frag_total <= 1,
    ensures
        relay_step(t, f) == (t, Some(f.payload)),
{
}

/// The first fragment of a packet is held and not sent on. It decides how many
/// fragments are awaited and where the packet goes.
pub proof fn law_first_fragment_is_held(t: Map<u16, FragView>, f: UdpFrameView)
    requires
        f.frag_total > 1,
        !t.contains_key(f.packet_id),
    ensures
        relay_step(t, f).1 is None,
        relay_step(t, f).0 == t.insert(
            f.packet_id,
            FragView {
                total: f.frag_total,
                received: if f.frag_id < f.frag_total {
                    1
                } else {
                    0
                },
                frags: if f.frag_id < f.frag_total {
                    map![f.frag_id => f.payload]
                } else {
                    Map::empty()
                },
                addr: f.addr,
                port: f.port,
            },
        ),
{
    let v = joined(t, f);
    let other: u8 = if f.frag_id == 0 {
        1
    } else {
        0
    };
    assert(other < v.total && !v.frags.contains_key(other));
    assert(v.frags =~= if f.frag_id < f.frag_total {
        map![f.frag_id => f.payload]
    } else {
        Map::empty()
    });
}

/// A further fragment is added to what is held of its packet, whatever it says
/// of how many there are and where they go. Where none is missing any more, the
/// packet is sent on and forgotten.
pub proof fn law_next_fragment_is_added(t: Map<u16, FragView>, f: UdpFrameView)
    requires
        f.frag_total > 1,
        t.contains_key(f.packet_id),
        t[f.packet_id].total > 0,
        f.frag_id < t[f.packet_id].total,
        !t[f.packet_id].frags.contains_key(f.frag_id),
    ensures
        ({
            let before = t[f.packet_id];
            let frags = before.frags.insert(f.frag_id, f.payload);
            let done = forall|i: u8| i < before.total ==> #[trigger] frags.contains_key(i);
            relay_step(t, f) == if done {
                (t.remove(f.packet_id), Some(in_order(frags, 256)))
            } else {
                (
                    t.insert(
                        f.packet_id,
                        FragView {
                            total: before.total,
                            received: (before.received + 1) as u8,
                            frags,
                            addr: before.addr,
                            port: before.port,
                        },
                    ),
                    None,
                )
            }
        }),
{
    let before = t[f.packet_id];
    let frags = before.frags.insert(f.frag_id, f.payload);
    let v = joined(t, f);
    assert(v.frags == frags);
    if forall|i: u8| i < before.total ==> #[trigger] frags.contains_key(i) {
        assert forall|i: u8| i < v.total implies v.frags.contains_key(i) by {
            assert(frags.contains_key(i));
        }
    } else {
        let i = choose|i: u8| i < before.total && !#[trigger] frags.contains_key(i);
        assert(!v.frags.contains_key(i));
    }
}

/// A fragment with a number that does not belong to its packet changes nothing.
pub proof fn law_foreign_fragments_change_nothing(t: Map<u16, FragView>, f: UdpFrameView)
    requires
        pending(t),
        f.frag_total > 1,
        t.contains_key(f.packet_id),
        f.frag_id >= t[f.packet_id].total,
    ensures
        relay_step(t, f) == (t, None::<Seq<u8>>),
{
    assert(t[f.packet_id].total > 0);
    assert(t.insert(f.packet_id, t[f.packet_id]) =~= t);
}

/// Fragments go one after the other by number: a new one has the lower numbers
/// before it and the higher ones behind it.
pub proof fn law_fragments_go_by_number(frags: Map<u8, Seq<u8>>, id: u8, payload: Seq<u8>)
    ensures
        in_order(Map::<u8, Seq<u8>>::empty(), 256) == Seq::<u8>::empty(),
        in_order(frags.insert(id, payload), 256) == in_order(
            frags.restrict(Set::new(|x: u8| x < id)),
            256,
        ) + payload + in_order(frags.restrict(Set::new(|x: u8| x > id)), 256),
{
    lemma_in_order_none(256);
    lemma_by_number(
        frags.insert(id, payload),
        frags.restrict(Set::new(|x: u8| x < id)),
        frags.restrict(Set::new(|x: u8| x > id)),
        id,
        256,
    );
}

proof fn lemma_by_number(
    all: Map<u8, Seq<u8>>,
    low: Map<u8, Seq<u8>>,
    high: Map<u8, Seq<u8>>,
    id: u8,
    n: nat,
)
    requires
        n <= 256,
        all.contains_key(id),
        forall|x: u8| #[trigger]
            low.contains_key(x) <==> x < id && all.contains_key(x),
        forall|x: u8| #[trigger] low.contains_key(x) ==> low[x] == all[x],
        forall|x: u8| #[trigger]
            high.contains_key(x) <==> x > id && all.contains_key(x),
        forall|x: u8| #[trigger] high.contains_key(x) ==> high[x] == all[x],
    ensures
        n > id ==> in_order(all, n) == in_order(low, n) + all[id] + in_order(high, n),
        n <= id ==> in_order(all, n) == in_order(low, n) && in_order(high, n) == Seq::<
            u8,
        >::empty(),
    decreases n,
{
    if n > 0 {
        lemma_by_number(all, low, high, id, (n - 1) as nat);
        let x = (n - 1) as u8;
        assert(low.contains_key(x) <==> x < id && all.contains_key(x));
        assert(high.contains_key(x) <==> x > id && all.contains_key(x));
        let a = in_order(low, (n - 1) as nat);
        let b = in_order(high, (n - 1) as nat);
        if x == id {
            assert(a + all[id] =~= a + all[id] + b);
        } else if x > id && all.contains_key(x) {
            assert(a + all[id] + b + all[x] =~= a + all[id] + (b + all[x]));
        }
    }
}

/// What is held of a packet: nothing at first, then each fragment of a new
/// number that belongs to it, with its first payload. A packet of which no
/// number of fragments was announced takes every number.
pub proof fn law_what_a_packet_holds(
    v: FragView,
    total: u8,
    addr: Seq<char>,
    port: u16,
    id: u8,
    payload: Seq<u8>,
)
    ensures
        FragView::start(total, addr, port) == (FragView {
            total,
            received: 0,
            frags: Map::empty(),
            addr,
            port,
        }),
        v.with(id, payload) == if (v.total == 0 || id < v.total) && !v.frags.contains_key(id) {
            FragView {
                total: v.total,
                received: (v.received + 1) as u8,
                frags: v.frags.insert(id, payload),
                addr: v.addr,
                port: v.port,
            }
        } else {
            v
        },
        v.complete() <==> forall|i: u8| i < v.total ==> #[trigger] v.frags.contains_key(i),
        v.bytes() == in_order(v.frags, 256),
        v.wf() <==> {
            &&& v.frags.dom().finite()
            &&& v.received == v.frags.dom().len()
            &&& forall|i: u8| #[trigger]
                v.frags.contains_key(i) ==> v.total == 0 || i < v.total
        },
{
    if v.wf() {
        assert forall|i: u8| #[trigger] v.frags.contains_key(i) implies v.total == 0 || i
            < v.total by {
            assert(v.takes(i));
        }
    }
}

/// The fields of a frame: eight bytes, of which the first four are the session
/// and the next two the packet, most significant first, then the length of the
/// address, the address, and all the rest is the payload.
pub proof fn law_frame_layout(
    head: Seq<u8>,
    len: Seq<u8>,
    addr: Seq<u8>,
    payload: Seq<u8>,
)
    requires
        head.len() == 8,
        1 <= addr.len() <= 2048,
        varint_of(len + addr + payload) == Ok::<(nat, nat), VarintError>((addr.len(), len.len())),
    ensures
        udp_frame_of(head + len + addr + payload) == if !utf8::valid_utf8(addr) {
            Err(FrameError::NotUtf8)
        } else {
            match host_port_of(utf8::decode_utf8(addr)) {
                Err(e) => Err(FrameError::BadAddr(e)),
                Ok((host, port)) => Ok(
                    UdpFrameView {
                        session_id: (head[0] * 0x100_0000 + head[1] * 0x1_0000 + head[2] * 0x100
                            + head[3]) as u32,
                        packet_id: (head[4] * 0x100 + head[5]) as u16,
                        frag_id: head[6],
                        frag_total: head[7],
                        addr: host,
                        port,
                        payload,
                    },
                ),
            }
        },
{
    let s = head + len + addr + payload;
    let used = len.len() as int;
    let n = addr.len() as int;
    assert(s.skip(8) =~= len + addr + payload);
    assert(s.subrange(8 + used, 8 + used + n) =~= addr);
    assert(s.skip(8 + used + n) =~= payload);
    crate::buffer::law_network_byte_order(head[0], head[1], head[2], head[3], 0);
    assert(s.take(4) =~= seq![head[0], head[1], head[2], head[3]]);
    crate::buffer::law_network_byte_order(head[4], head[5], 0, 0, 0);
    assert(s.subrange(4, 6) =~= seq![head[4], head[5]]);
}

/// Why bytes are refused as a frame: there are not eight, the length of the
/// address cannot be read, or is none or more than 2048, or the bytes end
/// inside the address.
pub proof fn law_what_is_no_frame(head: Seq<u8>, rest: Seq<u8>)
    requires
        head.len() <= 8,
    ensures
        head.len() < 8 ==> udp_frame_of(head) == Err::<UdpFrameView, FrameError>(
            FrameError::TooShort,
        ),
        head.len() == 8 ==> match varint_of(rest) {
            Err(e) => udp_frame_of(head + rest) == Err::<UdpFrameView, FrameError>(
                FrameError::AddrLen(e),
            ),
            Ok((n, used)) => {
                &&& n == 0 || n > 2048 ==> udp_frame_of(head + rest) == Err::<
                    UdpFrameView,
                    FrameError,
                >(FrameError::BadAddrLen)
                &&& 1 <= n <= 2048 && rest.len() < used + n ==> udp_frame_of(head + rest) == Err::<
                    UdpFrameView,
                    FrameError,
                >(FrameError::AddrTruncated)
            },
        },
{
    if head.len() == 8 {
        assert((head + rest).skip(8) =~= rest);
    }
}

/// The bytes of a reply frame: the session, packet 0, fragment 0 of 1, the
/// length of the address, the address and the payload.
pub proof fn law_reply_layout(
    a: u8,
    b: u8,
    c: u8,
    d: u8,
    src: SocketAddress,
    payload: Seq<u8>,
)
    ensures
        ({
            let session = (a * 0x100_0000 + b * 0x1_0000 + c * 0x100 + d) as u32;
            let addr = utf8::encode_utf8(src.chars());
            udp_reply(session, src, payload) == seq![a, b, c, d, 0u8, 0u8, 0u8, 1u8]
                + varint_bytes(addr.len() as u64) + addr + payload
        }),
{
    let session = (a * 0x100_0000 + b * 0x1_0000 + c * 0x100 + d) as u32;
    crate::buffer::law_network_byte_order(a, b, c, d, session as nat);
    assert(be_bytes(session as nat, 4) =~= seq![a, b, c, d]);
    crate::buffer::law_network_byte_order(0, 0, 0, 0, 0);
    reveal_with_fuel(be_bytes, 3);
    assert(be_bytes(0, 2) =~= seq![0u8, 0u8]);
    assert(seq![a, b, c, d] + seq![0u8, 0u8] + seq![0u8, 1u8] =~= seq![
        a,
        b,
        c,
        d,
        0u8,
        0u8,
        0u8,
        1u8,
    ]);
}

/// A frame is seen field by field.
pub proof fn law_frames_are_seen(f: UdpFrame)
    ensures
        f@ == (UdpFrameView {
            session_id: f.session_id,
            packet_id: f.packet_id,
            frag_id: f.frag_id,
            frag_total: f.frag_total,
            addr: f.addr@,
            port: f.port,
            payload: bytes_of(f.payload),
        }),
{
}

/// How long a target and a session are waited for, in seconds, and how much a
/// packet carries.
pub proof fn law_limits()
    ensures
        CONNECT_TIMEOUT_SECS == 10,
        UDP_IDLE_TIMEOUT_SECS == 60,
        UDP_MAX_PKT == 0xffff - 28,
{
}

/// A client is told that the connection stands exactly where it does, and else
/// the reason as the system gave it, or that the time is over.
pub proof fn law_what_clients_are_told(outcome: ConnectOutcome, why: String)
    ensures
        told_of(outcome).0 <==> outcome is Connected,
        told_of(ConnectOutcome::Connected).1 == "Connected"@,
        told_of(ConnectOutcome::Failed(why)).1 == why@,
        told_of(ConnectOutcome::TimedOut).1 == "connection timeout"@,
{
}

/// All that is read is written, whatever its length, and then more is read. A
/// direction ends exactly where nothing was read or something failed.
pub proof fn law_all_that_is_read_is_written(event: PumpEvent, n: usize)
    ensures
        n > 0 ==> pump_action(PumpEvent::Read(n)) == PumpAction::Write(n),
        pump_action(PumpEvent::Written) == PumpAction::Read,
        pump_action(event) == PumpAction::Finish <==> event == PumpEvent::Read(0) || event
            == PumpEvent::End || event == PumpEvent::Failed,
{
}

/// The target of a session names the address and the port of its frame.
pub proof fn law_target_names_address_and_port(addr: Seq<char>, port: u16)
    requires
        addr.len() > 0 ==> addr[0] != '[' && addr[0] != ']' && addr.last() != '[' && addr.last()
            != ']',
    ensures
        host_port_of(target_of(addr, port)) == Ok::<(Seq<char>, u16), AddrError>((addr, port)),
{
    let none = Seq::<char>::empty();
    let number = decimal(port as nat);
    text::lemma_decimal(port as nat, 65535);
    assert forall|i: int| 0 <= i < number.len() implies #[trigger] number[i] != ':' by {
        assert(text::is_digit(number[i]));
    }
    crate::address::law_host_and_port(none, addr, none, number);
    assert(none + addr + none + seq![':'] + number =~= target_of(addr, port));
}

/// What is held between two frames: packets that are well formed, each of which
/// still misses a fragment.
pub proof fn law_what_is_pending(t: Map<u16, FragView>)
    ensures
        pending(t) <==> forall|id: u16| #[trigger]
            t.contains_key(id) ==> t[id].wf() && exists|i: u8|
                i < t[id].total && !#[trigger] t[id].frags.contains_key(i),
{
    if pending(t) {
        assert forall|id: u16| #[trigger] t.contains_key(id) implies t[id].wf() && exists|i: u8|
            i < t[id].total && !#[trigger] t[id].frags.contains_key(i) by {
            assert(!t[id].complete());
        }
    }
}

} // verus!
