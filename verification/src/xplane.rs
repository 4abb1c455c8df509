//! The decisions of the streaming connection: what to make of each read.
//!
//! The connection reads bytes from the simulator's side with a time limit.
//! What it read, or why it read nothing, is handed to a `TelemetryStream`,
//! which cuts the bytes into frames, reads a record from each frame and
//! queues the records. A frame that holds no record is dropped.

use crate::aircraft::{Aircraft, AircraftView};
use crate::frame::{
    encode_frame, frame, lemma_frame_round_trip, payloads, pending, FrameBuffer, MAX_PAYLOAD,
};
use crate::sim_connection::{SimMessage, SimMessageView};
use crate::sim_data::{SimData, SimDataView};
use crate::text::{lemma_encoded_text, utf8_text};
use std::collections::VecDeque;
use vstd::prelude::*;
use vstd::utf8::{decode_utf8, encode_utf8, valid_utf8};

verus! {

/// How a read from the simulator's side ended.
#[derive(Debug)]
pub enum ReadEvent {
    /// These bytes came.
    Data(Vec<u8>),
    /// Nothing came within the time limit.
    TimedOut,
    /// The connection was aborted.
    ConnectionAborted,
    /// The other side closed the stream.
    Closed,
    /// The read failed for another reason.
    Failed,
}

/// The record in the payload of a frame: the payload is UTF-8 text, and the
/// text holds a record.
pub open spec fn payload_record(payload: Seq<u8>) -> Option<SimDataView> {
    if valid_utf8(payload) {
        SimDataView::decode(decode_utf8(payload))
    } else {
        None
    }
}

/// The records in the payloads of frames, in order, without the payloads
/// that hold none.
pub open spec fn records(payloads: Seq<Seq<u8>>) -> Seq<SimDataView>
    decreases payloads.len(),
{
    if payloads.len() == 0 {
        Seq::empty()
    } else {
        match payload_record(payloads.last()) {
            Some(record) => records(payloads.drop_last()).push(record),
            None => records(payloads.drop_last()),
        }
    }
}

/// The state of a stream: the bytes of a frame that has not fully come, and
/// the records that wait to be handed on.
pub struct StreamView {
    pub pending: Seq<u8>,
    pub queue: Seq<SimDataView>,
}

impl StreamView {
    /// The stream after `bytes` came: their frames are cut off together
    /// with what was pending, and the records of the frames join the queue.
    pub open spec fn receive(self, bytes: Seq<u8>) -> StreamView {
        StreamView {
            pending: pending(self.pending + bytes),
            queue: self.queue + records(payloads(self.pending + bytes)),
        }
    }

    /// The stream after its first record was handed on.
    pub open spec fn handed_on(self) -> StreamView {
        StreamView { pending: self.pending, queue: self.queue.skip(1) }
    }
}

/// Cuts the stream into frames and queues their records.
#[derive(Debug)]
pub struct TelemetryStream {
    buffer: FrameBuffer,
    queue: VecDeque<SimData>,
}

impl View for TelemetryStream {
    type V = StreamView;

    closed spec fn view(&self) -> StreamView {
        StreamView { pending: self.buffer@, queue: self.queue@.map_values(|data: SimData| data@) }
    }
}

/// Reads the record of a payload, as `payload_record` says.
fn read_payload(payload: &Vec<u8>) -> (data: Option<SimData>)
    ensures
        match payload_record(payload@) {
            Some(record) => data matches Some(read) && read@ == record,
            None => data is None,
        },
{
    match utf8_text(payload.as_slice()) {
        Some(text) => {
            proof {
                lemma_encoded_text(text@, payload@);
            }
            match SimData::from_csv(text.as_str()) {
                Ok(data) => Some(data),
                Err(_) => None,
            }
        },
        None => None,
    }
}

impl TelemetryStream {
    /// A stream of which nothing has been read.
    pub fn new() -> (stream: TelemetryStream)
        ensures
            stream@.pending == Seq::<u8>::empty(),
            stream@.queue == Seq::<SimDataView>::empty(),
    {
        let stream = TelemetryStream { buffer: FrameBuffer::new(), queue: VecDeque::new() };
        assert(stream@.queue =~= Seq::<SimDataView>::empty());
        stream
    }

    /// Takes in bytes that were read, as `StreamView::receive` says.
    pub fn receive(&mut self, bytes: &[u8])
        ensures
            final(self)@ == old(self)@.receive(bytes@),
    {
        let ghost all = old(self)@.pending + bytes@;
        let ghost taken = Seq::<Seq<u8>>::empty();
        self.buffer.push(bytes);
        proof {
            assert(taken + payloads(self.buffer@) =~= payloads(all));
            assert(self@.queue =~= old(self)@.queue + records(taken));
        }
        loop
            invariant
                payloads(all) == taken + payloads(self.buffer@),
                pending(all) == pending(self.buffer@),
                self@.queue == old(self)@.queue + records(taken),
            ensures
                self@.pending == pending(all),
                self@.queue == old(self)@.queue + records(payloads(all)),
            decreases self.buffer@.len(),
        {
            let ghost before = self.buffer@;
            let ghost queued = self@.queue;
            match self.buffer.next_frame() {
                None => {
                    proof {
                        assert(payloads(before) =~= Seq::<Seq<u8>>::empty());
                        assert(taken + payloads(before) =~= taken);
                    }
                    break ;
                },
                Some(payload) => {
                    proof {
                        assert(taken.push(payload@).drop_last() =~= taken);
                        assert(taken.push(payload@) + payloads(self.buffer@) =~= taken + payloads(
                            before,
                        ));
                    }
                    match read_payload(&payload) {
                        Some(data) => {
                            self.queue.push_back(data);
                            proof {
                                assert(self@.queue =~= queued.push(data@));
                                assert(self@.queue =~= old(self)@.queue + records(
                                    taken.push(payload@),
                                ));
                            }
                        },
                        None => {},
                    }
                    proof {
                        taken = taken.push(payload@);
                    }
                },
            }
        }
    }

    /// Hands on the record that has waited longest, as a message; there is
    /// none while the queue is empty.
    pub fn next_queued(&mut self) -> (message: Option<SimMessage>)
        ensures
            match message {
                Some(message) => {
                    &&& old(self)@.queue.len() > 0
                    &&& message@ == SimMessageView::SimData(
                        AircraftView::of_record(old(self)@.queue[0]),
                    )
                    &&& final(self)@ == old(self)@.handed_on()
                },
                None => old(self)@.queue.len() == 0 && final(self)@ == old(self)@,
            },
    {
        match self.queue.pop_front() {
            Some(data) => {
                proof {
                    assert(self@.queue =~= old(self)@.queue.skip(1));
                }
                Some(SimMessage::SimData(Aircraft::from(data)))
            },
            None => None,
        }
    }

    /// Decides what a read means for the engine.
    ///
    /// Bytes are taken in; the message is then the record that has waited
    /// longest, or `Waiting` while no record is whole. A read that timed out
    /// means `Waiting`, an aborted or closed connection means `Quit`, and
    /// neither changes the stream. A read that failed otherwise has no
    /// message: the failure is the caller's to report.
    pub fn on_read(&mut self, event: ReadEvent) -> (message: Option<SimMessage>)
        ensures
            match event {
                ReadEvent::Data(bytes) => {
                    let received = old(self)@.receive(bytes@);
                    if received.queue.len() > 0 {
                        &&& message matches Some(sample)
                        &&& sample@ == SimMessageView::SimData(
                            AircraftView::of_record(received.queue[0]),
                        )
                        &&& final(self)@ == received.handed_on()
                    } else {
                        &&& message matches Some(waiting)
                        &&& waiting@ == SimMessageView::Waiting
                        &&& final(self)@ == received
                    }
                },
                ReadEvent::TimedOut => {
                    &&& message matches Some(waiting)
                    &&& waiting@ == SimMessageView::Waiting
                    &&& final(self)@ == old(self)@
                },
                ReadEvent::ConnectionAborted | ReadEvent::Closed => {
                    &&& message matches Some(quit)
                    &&& quit@ == SimMessageView::Quit
                    &&& final(self)@ == old(self)@
                },
                ReadEvent::Failed => message is None && final(self)@ == old(self)@,
            },
    {
        match event {
            ReadEvent::Data(bytes) => {
                self.receive(bytes.as_slice());
                match self.next_queued() {
                    Some(sample) => Some(sample),
                    None => Some(SimMessage::Waiting),
                }
            },
            ReadEvent::TimedOut => Some(SimMessage::Waiting),
            ReadEvent::ConnectionAborted => Some(SimMessage::Quit),
            ReadEvent::Closed => Some(SimMessage::Quit),
            ReadEvent::Failed => None,
        }
    }
}

/// The frame that carries a record: its payload is the record's
/// comma-separated text in UTF-8. There is none where the record has no
/// text, or a text too long for a frame.
pub open spec fn record_frame(record: SimDataView) -> Option<Seq<u8>> {
    match record.encode() {
        Some(text) => if encode_utf8(text).len() <= MAX_PAYLOAD {
            Some(frame(encode_utf8(text)))
        } else {
            None
        },
        None => None,
    }
}

/// Puts a record in a frame for the stream, as `record_frame` says.
pub fn packet(data: &SimData) -> (framed: Option<Vec<u8>>)
    ensures
        match record_frame(data@) {
            Some(bytes) => framed matches Some(written) && written@ == bytes,
            None => framed is None,
        },
{
    match data.to_csv() {
        Ok(text) => encode_frame(text.as_str().as_bytes()),
        Err(_) => None,
    }
}

/// A frame that comes whole to a stream with nothing pending leaves
/// nothing pending, and queues the record of its payload if it holds one.
pub proof fn lemma_receive_frame(stream: StreamView, payload: Seq<u8>)
    requires
        stream.pending.len() == 0,
        payload.len() <= MAX_PAYLOAD,
    ensures
        stream.receive(frame(payload)).pending == Seq::<u8>::empty(),
        stream.receive(frame(payload)).queue == match payload_record(payload) {
            Some(record) => stream.queue.push(record),
            None => stream.queue,
        },
{
    let none = Seq::<u8>::empty();
    lemma_frame_round_trip(payload, none);
    assert(frame(payload) + none =~= frame(payload));
    assert(stream.pending + frame(payload) =~= frame(payload));
    assert(payloads(none) =~= Seq::<Seq<u8>>::empty());
    assert(pending(none) =~= none);
    let one = seq![payload];
    assert(seq![payload] + Seq::<Seq<u8>>::empty() =~= one);
    assert(one.last() == payload);
    assert(one.drop_last() =~= Seq::<Seq<u8>>::empty());
    assert(records(one.drop_last()) =~= Seq::<SimDataView>::empty());
    match payload_record(payload) {
        Some(record) => {
            assert(records(one) =~= seq![record]);
            assert(stream.queue + seq![record] =~= stream.queue.push(record));
        },
        None => {
            assert(stream.queue + records(one) =~= stream.queue);
        },
    }
}

/// A record that was put in a frame comes out of the stream as it went in,
/// wherever its text reads as the record: the frame, come whole to a stream
/// with nothing pending, queues that record and leaves nothing pending.
pub proof fn lemma_packet_received(stream: StreamView, record: SimDataView)
    requires
        stream.pending.len() == 0,
    ensures
        record_frame(record) matches Some(bytes) ==> (SimDataView::decode(record.encode()->Some_0)
            == Some(record) ==> stream.receive(bytes) == (StreamView {
            pending: Seq::empty(),
            queue: stream.queue.push(record),
        })),
{
    if record_frame(record) is Some {
        let text = record.encode()->Some_0;
        let payload = encode_utf8(text);
        lemma_encoded_text(text, payload);
        lemma_receive_frame(stream, payload);
    }
}

/// However the stream is cut into reads, the same records are queued and
/// the same bytes stay pending: taking in two reads one after the other is
/// taking in their bytes at once.
pub proof fn lemma_receive_in_parts(stream: StreamView, read: Seq<u8>, more: Seq<u8>)
    ensures
        stream.receive(read).receive(more) == stream.receive(read + more),
{
    let first = stream.pending + read;
    crate::frame::lemma_frames_of_reads(first, more);
    assert(first + more =~= stream.pending + (read + more));
    lemma_records_of_both(payloads(first), payloads(pending(first) + more));
    assert(stream.receive(read).receive(more).queue =~= stream.receive(read + more).queue);
}

/// The records of payloads that follow one another are the records of the
/// first, then those of the others.
pub proof fn lemma_records_of_both(first: Seq<Seq<u8>>, others: Seq<Seq<u8>>)
    ensures
        records(first + others) == records(first) + records(others),
    decreases others.len(),
{
    if others.len() == 0 {
        assert(first + others =~= first);
        assert(records(first) + records(others) =~= records(first));
    } else {
        let both = first + others;
        assert(both.last() == others.last());
        assert(both.drop_last() =~= first + others.drop_last());
        lemma_records_of_both(first, others.drop_last());
        match payload_record(others.last()) {
            Some(record) => {
                assert(records(both) =~= records(first) + records(others));
            },
            None => {},
        }
    }
}

} // verus!
