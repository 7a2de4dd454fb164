//! A byte stream over WebSocket messages.
//!
//! Bytes go out as binary messages. What comes in as binary or text messages
//! is read as one stream, whatever the length of the messages; what a reader
//! has no room for waits in a buffer.

use crate::buffer::{bytes_mut_of, bytes_of, fits_buffer};
use crate::text;
use bytes::{Bytes, BytesMut};
use vstd::prelude::*;
use vstd::utf8;

verus! {

/// Whether a client may change to WebSocket: only on the configured path.
/// Anyone else gets this status.
pub fn check_path(req_path: &str, expected_path: &str) -> (r: Result<(), u16>)
    ensures
        r == if req_path@ == expected_path@ {
            Ok::<(), u16>(())
        } else {
            Err(404u16)
        },
{
    if text::same_text(req_path, expected_path) {
        Ok(())
    } else {
        Err(404)
    }
}

/// A message that came in.
#[derive(Debug)]
pub enum WsMessage {
    Binary(Vec<u8>),
    Text(String),
    /// A ping, a pong or a raw frame.
    Control,
    Close,
}

/// A message that came in, over mathematical values.
pub enum MessageView {
    /// These bytes of the stream.
    Data(Seq<u8>),
    /// No bytes of the stream.
    Control,
    /// The end of the stream.
    Close,
}

impl View for WsMessage {
    type V = MessageView;

    open spec fn view(&self) -> MessageView {
        match self {
            WsMessage::Binary(v) => MessageView::Data(v@),
            WsMessage::Text(s) => MessageView::Data(utf8::encode_utf8(s@)),
            WsMessage::Control => MessageView::Control,
            WsMessage::Close => MessageView::Close,
        }
    }
}

/// What a message leads to.
#[derive(Debug)]
pub enum WsStep {
    /// These bytes are read.
    Data(Vec<u8>),
    /// The next message is wanted.
    Next,
    /// The stream has ended.
    End,
}

/// What a message leads to, over mathematical values.
pub enum StepView {
    Data(Seq<u8>),
    Next,
    End,
}

impl View for WsStep {
    type V = StepView;

    open spec fn view(&self) -> StepView {
        match self {
            WsStep::Data(v) => StepView::Data(v@),
            WsStep::Next => StepView::Next,
            WsStep::End => StepView::End,
        }
    }
}

/// The lesser of two numbers.
pub open spec fn lesser(a: nat, b: nat) -> nat {
    if a < b {
        a
    } else {
        b
    }
}

/// What a message leads to where there is room for `room` bytes, and what is
/// left to wait.
pub open spec fn message_step(msg: MessageView, room: nat) -> (StepView, Seq<u8>) {
    match msg {
        MessageView::Data(data) => if data.len() == 0 {
            (StepView::Next, Seq::empty())
        } else {
            let n = lesser(data.len(), room) as int;
            (StepView::Data(data.take(n)), data.skip(n))
        },
        MessageView::Control => (StepView::Next, Seq::empty()),
        MessageView::Close => (StepView::End, Seq::empty()),
    }
}

/// What is read of the bytes that wait, where there is room for `room` bytes,
/// and what is left of them; `None` where nothing waits.
pub open spec fn waiting_step(waiting: Seq<u8>, room: nat) -> Option<(Seq<u8>, Seq<u8>)> {
    let n = lesser(waiting.len(), room) as int;
    if waiting.len() == 0 {
        None
    } else {
        Some((waiting.take(n), waiting.skip(n)))
    }
}

/// The reading half of a stream: what came in and was not read yet.
pub struct WsReader {
    read_buf: BytesMut,
}

impl View for WsReader {
    type V = Seq<u8>;

    closed spec fn view(&self) -> Seq<u8> {
        bytes_mut_of(self.read_buf)
    }
}

impl WsReader {
    /// Nothing has come in.
    pub fn new() -> (r: Self)
        ensures
            r@ == Seq::<u8>::empty(),
    {
        WsReader { read_buf: BytesMut::new() }
    }

    /// Reads what waits, up to `room` bytes of it; `None` where nothing waits.
    pub fn take_waiting(&mut self, room: usize) -> (r: Option<Bytes>)
        ensures
            match r {
                Some(out) => {
                    let n = lesser(old(self)@.len(), room as nat) as int;
                    &&& old(self)@.len() > 0
                    &&& bytes_of(out) == old(self)@.take(n)
                    &&& final(self)@ == old(self)@.skip(n)
                },
                None => old(self)@.len() == 0 && final(self)@ == old(self)@,
            },
            match (r, waiting_step(old(self)@, room as nat)) {
                (Some(out), Some((read, left))) => bytes_of(out) == read && final(self)@ == left,
                (None, None) => final(self)@ == old(self)@,
                _ => false,
            },
    {
        if self.read_buf.len() == 0 {
            return None;
        }
        let n = if self.read_buf.len() < room {
            self.read_buf.len()
        } else {
            room
        };
        Some(self.read_buf.split_to(n).freeze())
    }

    /// Takes a message while nothing waits: reads up to `room` bytes of it,
    /// and lets the rest wait.
    pub fn take_message(&mut self, msg: WsMessage, room: usize) -> (r: WsStep)
        requires
            old(self)@.len() == 0,
            msg@ matches MessageView::Data(data) ==> fits_buffer(data.len()),
        ensures
            r@ == message_step(msg@, room as nat).0,
            final(self)@ == message_step(msg@, room as nat).1,
    {
        let data = match msg {
            WsMessage::Binary(v) => v,
            WsMessage::Text(s) => vstd::slice::slice_to_vec(s.as_str().as_bytes()),
            WsMessage::Control => {
                assert(self@ =~= Seq::empty());
                return WsStep::Next;
            },
            WsMessage::Close => {
                assert(self@ =~= Seq::empty());
                return WsStep::End;
            },
        };
        if data.len() == 0 {
            assert(self@ =~= Seq::empty());
            return WsStep::Next;
        }
        let n = if data.len() < room {
            data.len()
        } else {
            room
        };
        let out = vstd::slice::slice_to_vec(vstd::slice::slice_subrange(data.as_slice(), 0, n));
        assert(out@ =~= data@.take(n as int));
        if n < data.len() {
            let rest = vstd::slice::slice_subrange(data.as_slice(), n, data.len());
            self.read_buf.extend_from_slice(rest);
        }
        assert(self@ =~= data@.skip(n as int));
        WsStep::Data(out)
    }
}

/// The bytes that the message for `buf` carries.
pub open spec fn carried(buf: Seq<u8>) -> Seq<u8> {
    buf
}

/// The message that carries bytes out, and how many of them it carries: all
/// of them.
pub fn outgoing(buf: &[u8]) -> (r: (Vec<u8>, usize))
    ensures
        r.0@ == carried(buf@),
        r.1 == carried(buf@).len(),
        r.0@ == buf@,
        r.1 == buf@.len(),
{
    (vstd::slice::slice_to_vec(buf), buf.len())
}

/// The bytes of a run of messages, up to the end of the stream.
pub open spec fn stream_bytes(msgs: Seq<MessageView>) -> Seq<u8>
    decreases msgs.len(),
{
    if msgs.len() == 0 {
        Seq::empty()
    } else {
        match msgs[0] {
            MessageView::Data(data) => data + stream_bytes(msgs.skip(1)),
            MessageView::Control => stream_bytes(msgs.skip(1)),
            MessageView::Close => Seq::empty(),
        }
    }
}

/// One read with room for `room` bytes, where `waiting` waits and `msgs` are
/// still to come: what is read, what waits then, and what is still to come.
/// At the end of the stream nothing is read.
pub open spec fn read_once(waiting: Seq<u8>, msgs: Seq<MessageView>, room: nat) -> (
    Seq<u8>,
    Seq<u8>,
    Seq<MessageView>,
)
    decreases msgs.len(),
{
    if waiting.len() > 0 {
        let n = lesser(waiting.len(), room) as int;
        (waiting.take(n), waiting.skip(n), msgs)
    } else if msgs.len() == 0 {
        (Seq::empty(), Seq::empty(), msgs)
    } else {
        let (step, rest) = message_step(msgs[0], room);
        match step {
            StepView::Data(out) => (out, rest, msgs.skip(1)),
            StepView::Next => read_once(rest, msgs.skip(1), room),
            StepView::End => (Seq::empty(), rest, msgs),
        }
    }
}

/// A read loses and makes up no byte: what it gives, what waits and what is
/// still to come make up what waited and was still to come.
pub proof fn law_reads_keep_the_stream(waiting: Seq<u8>, msgs: Seq<MessageView>, room: nat)
    ensures
        ({
            let (out, left, rest) = read_once(waiting, msgs, room);
            out + left + stream_bytes(rest) == waiting + stream_bytes(msgs)
        }),
        read_once(waiting, msgs, room).0.len() <= room,
    decreases msgs.len(),
{
    let (out, left, rest) = read_once(waiting, msgs, room);
    if waiting.len() > 0 {
        assert(out + left + stream_bytes(rest) =~= waiting + stream_bytes(msgs));
    } else if msgs.len() == 0 {
        assert(out + left + stream_bytes(rest) =~= waiting + stream_bytes(msgs));
    } else {
        let (step, held) = message_step(msgs[0], room);
        match step {
            StepView::Next => {
                law_reads_keep_the_stream(held, msgs.skip(1), room);
                assert(held + stream_bytes(msgs.skip(1)) =~= waiting + stream_bytes(msgs));
            },
            _ => {
                assert(out + left + stream_bytes(rest) =~= waiting + stream_bytes(msgs));
            },
        }
    }
}

/// A read with room gives nothing only at the end of the stream.
pub proof fn law_empty_read_is_the_end(waiting: Seq<u8>, msgs: Seq<MessageView>, room: nat)
    requires
        room > 0,
    ensures
        read_once(waiting, msgs, room).0.len() == 0 <==> (waiting + stream_bytes(msgs)).len() == 0,
    decreases msgs.len(),
{
    if waiting.len() == 0 && msgs.len() > 0 {
        let (step, held) = message_step(msgs[0], room);
        if step is Next {
            law_empty_read_is_the_end(held, msgs.skip(1), room);
        }
    }
}

/// The messages that runs of bytes go out as.
pub open spec fn sent(chunks: Seq<Seq<u8>>) -> Seq<MessageView> {
    chunks.map_values(|c: Seq<u8>| MessageView::Data(c))
}

/// What one end sends the other end reads: the stream of the messages is the
/// bytes that were written, one after the other.
pub proof fn law_the_other_end_reads_what_was_written(chunks: Seq<Seq<u8>>)
    ensures
        stream_bytes(sent(chunks)) == chunks.flatten(),
    decreases chunks.len(),
{
    if chunks.len() > 0 {
        law_the_other_end_reads_what_was_written(chunks.drop_first());
        assert(sent(chunks).skip(1) =~= sent(chunks.drop_first()));
    }
}

/// A message is read as far as there is room, and the rest of it waits. One
/// without bytes, and one that is no data, is passed over; one that closes the
/// stream ends it.
pub proof fn law_messages_are_read(data: Seq<u8>, rest: Seq<u8>, room: nat)
    ensures
        0 < data.len() <= room ==> message_step(MessageView::Data(data), room) == (
            StepView::Data(data),
            Seq::<u8>::empty(),
        ),
        data.len() == room && rest.len() > 0 ==> message_step(
            MessageView::Data(data + rest),
            room,
        ) == (StepView::Data(data), rest),
        message_step(MessageView::Data(Seq::empty()), room) == (
            StepView::Next,
            Seq::<u8>::empty(),
        ),
        message_step(MessageView::Control, room) == (StepView::Next, Seq::<u8>::empty()),
        message_step(MessageView::Close, room) == (StepView::End, Seq::<u8>::empty()),
{
    if 0 < data.len() <= room {
        assert(data.take(data.len() as int) =~= data);
        assert(data.skip(data.len() as int) =~= Seq::empty());
    }
    if data.len() == room && rest.len() > 0 {
        assert((data + rest).take(room as int) =~= data);
        assert((data + rest).skip(room as int) =~= rest);
    }
}

/// The lesser of two numbers is one of them, and no more than either.
pub proof fn law_lesser(a: nat, b: nat)
    ensures
        lesser(a, b) <= a,
        lesser(a, b) <= b,
        lesser(a, b) == a || lesser(a, b) == b,
{
}

/// The stream of a run of messages is the bytes of the data among them, in their
/// order, up to the message that closes it.
pub proof fn law_stream_of_messages(data: Seq<u8>, msgs: Seq<MessageView>)
    ensures
        stream_bytes(Seq::empty()) == Seq::<u8>::empty(),
        stream_bytes(seq![MessageView::Data(data)] + msgs) == data + stream_bytes(msgs),
        stream_bytes(seq![MessageView::Control] + msgs) == stream_bytes(msgs),
        stream_bytes(seq![MessageView::Close] + msgs) == Seq::<u8>::empty(),
{
    assert((seq![MessageView::Data(data)] + msgs).skip(1) =~= msgs);
    assert((seq![MessageView::Control] + msgs).skip(1) =~= msgs);
}

/// Text is data as UTF-8, and messages and steps are seen with their bytes.
pub proof fn law_messages_are_seen(v: Vec<u8>, s: String)
    ensures
        WsMessage::Binary(v)@ == MessageView::Data(v@),
        WsMessage::Text(s)@ == MessageView::Data(utf8::encode_utf8(s@)),
        WsMessage::Control@ == MessageView::Control,
        WsMessage::Close@ == MessageView::Close,
        WsStep::Data(v)@ == StepView::Data(v@),
        WsStep::Next@ == StepView::Next,
        WsStep::End@ == StepView::End,
{
}

/// What waits is read as far as there is room, in its order, and the rest goes
/// on waiting.
pub proof fn law_waiting_bytes_are_read(front: Seq<u8>, rest: Seq<u8>, room: nat)
    ensures
        waiting_step(Seq::empty(), room) is None,
        0 < front.len() <= room ==> waiting_step(front, room) == Some(
            (front, Seq::<u8>::empty()),
        ),
        front.len() == room && rest.len() > 0 ==> waiting_step(front + rest, room) == Some(
            (front, rest),
        ),
{
    if 0 < front.len() <= room {
        assert(front.take(front.len() as int) =~= front);
        assert(front.skip(front.len() as int) =~= Seq::empty());
    }
    if front.len() == room && rest.len() > 0 {
        assert((front + rest).take(room as int) =~= front);
        assert((front + rest).skip(room as int) =~= rest);
    }
}

/// The other end reads from a message all that was to go out, whatever its
/// length, and reads runs of bytes as if they had been one.
pub proof fn law_messages_carry_all(a: Seq<u8>, b: Seq<u8>)
    ensures
        stream_bytes(seq![MessageView::Data(carried(a))]) == a,
        stream_bytes(seq![MessageView::Data(carried(a)), MessageView::Data(carried(b))])
            == stream_bytes(seq![MessageView::Data(carried(a + b))]),
{
    let none = Seq::<MessageView>::empty();
    law_stream_of_messages(a, none);
    law_stream_of_messages(b, none);
    law_stream_of_messages(a + b, none);
    let one = seq![MessageView::Data(b)];
    law_stream_of_messages(a, one);
    assert(seq![MessageView::Data(a)] + none =~= seq![MessageView::Data(a)]);
    assert(one + none =~= one);
    assert(seq![MessageView::Data(a + b)] + none =~= seq![MessageView::Data(a + b)]);
    assert(seq![MessageView::Data(a)] + one =~= seq![MessageView::Data(a), MessageView::Data(b)]);
    assert(a + Seq::<u8>::empty() =~= a);
    assert(b + Seq::<u8>::empty() =~= b);
    assert(a + b + Seq::<u8>::empty() =~= a + b);
}

} // verus!
