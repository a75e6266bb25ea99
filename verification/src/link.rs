//! The front end's side of the link: the command receiver and the loop that
//! turns captured samples and keyphasor edges into frames.

use crate::batch::{dequeue_sample, queue_answers, PackedBatch, SampleBatch};
use crate::packing::{base_tick, law_packed_len, pack_samples_ch0, packed_bytes};
use crate::protocol::{
    Command, Frame, FrameView, KpEvent, PackedPacket, Sample, HEADER_SIZE, MAX_BATCH_SIZE,
};
use crate::types::{PacketSeq, SampleRateHz};
use crate::wire::{
    command_bytes, decode_command, frame_bytes, frame_to_wire, framed, header_value,
    law_command_read_back, law_header_read_back, law_sent_frames_fit, law_u16_read_back,
    law_u32_read_back, parse_header, read_command,
};
use vstd::prelude::*;

verus! {

// ---------------------------------------------------------------------------
// Batching
// ---------------------------------------------------------------------------

/// Puts what came out of the queue into the batch. Returns whether to ask the
/// queue again: there was a sample, and there is room for another.
pub fn batch_next(buf: &mut SampleBatch, next: Option<Sample>) -> (more: bool)
    requires
        old(buf)@.len() < MAX_BATCH_SIZE,
    ensures
        final(buf)@ == match next {
            Some(s) => old(buf)@.push(s),
            None => old(buf)@,
        },
        more == (next is Some && final(buf)@.len() < MAX_BATCH_SIZE),
{
    match next {
        Some(s) => {
            let _ = buf.push(s);
            buf.samples().len() < MAX_BATCH_SIZE
        },
        None => false,
    }
}

/// The samples among answers of the queue, in order.
pub open spec fn handed_out(a: Seq<Option<Sample>>) -> Seq<Sample>
    decreases a.len(),
{
    if a.len() == 0 {
        seq![]
    } else {
        match a.last() {
            Some(s) => handed_out(a.drop_last()).push(s),
            None => handed_out(a.drop_last()),
        }
    }
}

/// The answers of the queue that filling `room` places takes: samples until the places
/// are filled, or fewer and then that there is none.
pub open spec fn drains(a: Seq<Option<Sample>>, room: int) -> bool {
    &&& a.len() <= room
    &&& forall|i: int| 0 <= i < a.len() - 1 ==> (#[trigger] a[i]) is Some
    &&& a.len() == room || (a.len() > 0 && a.last() is None)
}

/// Moves samples from the queue into the batch until the batch is full or the
/// queue has nothing to give: in order, none lost and none twice. What the queue
/// has to give depends on the capture running beside it.
pub fn drain_samples(
    rx: &mut heapless::spsc::Consumer<'static, Sample>,
    buf: &mut SampleBatch,
)
    requires
        old(buf)@.len() <= MAX_BATCH_SIZE,
    ensures
        final(buf)@.len() <= MAX_BATCH_SIZE,
        queue_answers(*old(rx)).is_prefix_of(queue_answers(*final(rx))),
        ({
            let a = queue_answers(*final(rx)).skip(queue_answers(*old(rx)).len() as int);
            &&& drains(a, MAX_BATCH_SIZE - old(buf)@.len())
            &&& final(buf)@ == old(buf)@ + handed_out(a)
        }),
{
    let ghost start = buf@;
    let ghost asked = queue_answers(*rx);
    let mut more: bool = buf.samples().len() < MAX_BATCH_SIZE;
    proof {
        assert(queue_answers(*rx).skip(asked.len() as int) =~= seq![]);
        assert(start + handed_out(seq![]) =~= start);
    }
    while more
        invariant
            start == old(buf)@,
            asked == queue_answers(*old(rx)),
            start.len() <= MAX_BATCH_SIZE,
            buf@.len() <= MAX_BATCH_SIZE,
            asked.is_prefix_of(queue_answers(*rx)),
            ({
                let a = queue_answers(*rx).skip(asked.len() as int);
                &&& buf@ == start + handed_out(a)
                &&& more ==> buf@.len() == start.len() + a.len() && buf@.len() < MAX_BATCH_SIZE
                    && forall|i: int| 0 <= i < a.len() ==> (#[trigger] a[i]) is Some
                &&& !more ==> drains(a, MAX_BATCH_SIZE - start.len())
            }),
        decreases MAX_BATCH_SIZE - buf@.len() + if more { 1int } else { 0 },
    {
        let ghost before = buf@;
        let ghost a = queue_answers(*rx).skip(asked.len() as int);
        let next = dequeue_sample(rx);
        more = batch_next(buf, next);
        proof {
            let b = queue_answers(*rx).skip(asked.len() as int);
            assert(b =~= a.push(next));
            assert(b.drop_last() =~= a);
            assert(buf@ =~= start + handed_out(b));
            assert forall|i: int| 0 <= i < b.len() - 1 implies (#[trigger] b[i]) is Some by {
                assert(a[i] is Some);
            }
        }
    }
}

/// A batch is filled with what the queue hands out, in order and without a gap, and it is
/// left with room only because the queue had nothing more to give.
pub proof fn law_batch_is_what_the_queue_gave(a: Seq<Option<Sample>>, room: int)
    requires
        drains(a, room),
    ensures
        ({
            let got = handed_out(a);
            &&& got.len() <= room
            &&& got.len() < room ==> a.len() == got.len() + 1 && a[got.len() as int] is None
            &&& got.len() == room ==> a.len() == room
            &&& forall|i: int|
                #![trigger got[i]]
                #![trigger a[i]]
                0 <= i < got.len() ==> a[i] == Some(got[i])
        }),
    decreases a.len(),
{
    if a.len() > 0 {
        let b = a.drop_last();
        assert forall|i: int| 0 <= i < b.len() implies (#[trigger] b[i]) is Some by {
            assert(a[i] is Some);
        }
        lemma_all_handed_out(b);
        assert forall|i: int| 0 <= i < handed_out(a).len() implies a[i] == Some(
            #[trigger] handed_out(a)[i],
        ) by {
            if i < b.len() {
                assert(b[i] == a[i]);
                assert(handed_out(b)[i] == handed_out(a)[i]);
            }
        }
    }
}

proof fn lemma_all_handed_out(a: Seq<Option<Sample>>)
    requires
        forall|i: int| 0 <= i < a.len() ==> (#[trigger] a[i]) is Some,
    ensures
        handed_out(a).len() == a.len(),
        forall|i: int| 0 <= i < a.len() ==> a[i] == Some(#[trigger] handed_out(a)[i]),
    decreases a.len(),
{
    if a.len() > 0 {
        let b = a.drop_last();
        assert forall|i: int| 0 <= i < b.len() implies (#[trigger] b[i]) is Some by {
            assert(a[i] is Some);
        }
        lemma_all_handed_out(b);
        assert(a.last() == a[a.len() - 1]);
        assert forall|i: int| 0 <= i < a.len() implies a[i] == Some(
            #[trigger] handed_out(a)[i],
        ) by {
            if i < b.len() {
                assert(b[i] == a[i]);
                assert(handed_out(b)[i] == handed_out(a)[i]);
            }
        }
    }
}

// ---------------------------------------------------------------------------
// Commands
// ---------------------------------------------------------------------------

/// Bytes that the command receiver holds at most.
pub const COMMAND_BUFFER_SIZE: usize = 256;

/// The bytes after as much of `chunk` as there is room for has been taken in. A
/// full buffer is emptied first.
pub open spec fn buffer_with(buf: Seq<u8>, chunk: Seq<u8>) -> Seq<u8> {
    kept(buf) + chunk.take(taken(buf, chunk) as int)
}

pub open spec fn kept(buf: Seq<u8>) -> Seq<u8> {
    if buf.len() >= COMMAND_BUFFER_SIZE {
        seq![]
    } else {
        buf
    }
}

/// How many bytes of `chunk` there is room for.
pub open spec fn taken(buf: Seq<u8>, chunk: Seq<u8>) -> nat {
    let free = COMMAND_BUFFER_SIZE - kept(buf).len();
    if chunk.len() <= free {
        chunk.len()
    } else {
        free as nat
    }
}

/// What the buffer holds.
pub enum Pending {
    /// Part of a frame.
    Partial,
    /// Bytes that are no command frame.
    Garbage,
    /// A whole frame in front, of the given length in all.
    Whole(Command, usize),
}

/// A frame in front of the buffer is read once all of it is there. A length of 0
/// or beyond the buffer, and a payload that is no command, are garbage.
pub open spec fn pending(buf: Seq<u8>) -> Pending {
    if buf.len() < HEADER_SIZE {
        Pending::Partial
    } else {
        let n = header_value(buf);
        if n == 0 || n > COMMAND_BUFFER_SIZE - HEADER_SIZE {
            Pending::Garbage
        } else if buf.len() < HEADER_SIZE + n {
            Pending::Partial
        } else {
            match read_command(buf.subrange(HEADER_SIZE as int, HEADER_SIZE + n as int)) {
                Some(c) => Pending::Whole(c, (HEADER_SIZE + n) as usize),
                None => Pending::Garbage,
            }
        }
    }
}

/// The buffer after the frame in front of it, if any, has been read.
pub open spec fn buffer_after(buf: Seq<u8>) -> Seq<u8> {
    match pending(buf) {
        Pending::Partial => buf,
        Pending::Garbage => seq![],
        Pending::Whole(_, n) => buf.skip(n as int),
    }
}

/// The command in front of the buffer, if all of it is there.
pub open spec fn command_in(buf: Seq<u8>) -> Option<Command> {
    match pending(buf) {
        Pending::Whole(c, _) => Some(c),
        _ => None,
    }
}

/// Collects the bytes of commands as they come in. It never waits for the rest of
/// a frame: a call takes what is there and reads at most one command.
pub struct CommandBuffer {
    bytes: Vec<u8>,
}

impl View for CommandBuffer {
    type V = Seq<u8>;

    closed spec fn view(&self) -> Seq<u8> {
        self.bytes@
    }
}

impl CommandBuffer {
    /// No more bytes than the buffer has room for.
    pub open spec fn wf(&self) -> bool {
        self@.len() <= COMMAND_BUFFER_SIZE
    }

    /// An empty buffer.
    pub fn new() -> (r: CommandBuffer)
        ensures
            r.wf(),
            r@ == Seq::<u8>::empty(),
    {
        CommandBuffer { bytes: Vec::new() }
    }

    fn classify(&self) -> (r: Pending)
        requires
            self.wf(),
        ensures
            r == pending(self@),
    {
        let used: usize = self.bytes.len();
        if used < HEADER_SIZE {
            return Pending::Partial;
        }
        let n: u32 = parse_header(self.bytes.as_slice());
        if n == 0 || n > (COMMAND_BUFFER_SIZE - HEADER_SIZE) as u32 {
            return Pending::Garbage;
        }
        let frame_len: usize = HEADER_SIZE + n as usize;
        if used < frame_len {
            return Pending::Partial;
        }
        let (front, _) = self.bytes.as_slice().split_at(frame_len);
        let (_, payload) = front.split_at(HEADER_SIZE);
        assert(payload@ =~= self@.subrange(HEADER_SIZE as int, HEADER_SIZE + n as int));
        match decode_command(payload) {
            Some(c) => Pending::Whole(c, frame_len),
            None => Pending::Garbage,
        }
    }

    /// Takes in the front of `chunk` and reads the command in front of the buffer,
    /// if all of it is there. Returns how many bytes of `chunk` were taken, and
    /// the command.
    pub fn receive(&mut self, chunk: &[u8]) -> (r: (usize, Option<Command>))
        requires
            old(self).wf(),
        ensures
            final(self).wf(),
            r.0 == taken(old(self)@, chunk@),
            r.1 == command_in(buffer_with(old(self)@, chunk@)),
            final(self)@ == buffer_after(buffer_with(old(self)@, chunk@)),
    {
        if self.bytes.len() >= COMMAND_BUFFER_SIZE {
            self.bytes.clear();
        }
        assert(self@ =~= kept(old(self)@));
        let free: usize = COMMAND_BUFFER_SIZE - self.bytes.len();
        let n: usize = if chunk.len() <= free {
            chunk.len()
        } else {
            free
        };
        for i in 0..n
            invariant
                n <= chunk@.len(),
                self@ == kept(old(self)@) + chunk@.take(i as int),
        {
            self.bytes.push(chunk[i]);
            assert(self@ =~= kept(old(self)@) + chunk@.take(i + 1));
        }
        let ghost all = buffer_with(old(self)@, chunk@);
        assert(self@ =~= all);
        match self.classify() {
            Pending::Partial => (n, None),
            Pending::Garbage => {
                self.bytes.clear();
                assert(self@ =~= buffer_after(all));
                (n, None)
            },
            Pending::Whole(c, len) => {
                let rest = self.bytes.split_off(len);
                self.bytes = rest;
                assert(self@ =~= all.skip(len as int));
                (n, Some(c))
            },
        }
    }
}

/// However the bytes of a command are cut up on the way, the command is read when
/// its last byte is in, not before and not twice; bytes that follow it stay.
pub proof fn law_command_survives_chunking(c: Command, cut: int, chunk: Seq<u8>)
    requires
        0 <= cut < framed(command_bytes(c)).len(),
        chunk.len() > 0,
        cut + chunk.len() <= COMMAND_BUFFER_SIZE,
        framed(command_bytes(c)).len() <= cut + chunk.len() ==> chunk.take(
            framed(command_bytes(c)).len() - cut,
        ) == framed(command_bytes(c)).skip(cut),
        cut + chunk.len() < framed(command_bytes(c)).len() ==> chunk == framed(
            command_bytes(c),
        ).subrange(cut, cut + chunk.len() as int),
    ensures
        ({
            let wire = framed(command_bytes(c));
            let buf = buffer_with(wire.take(cut), chunk);
            if cut + chunk.len() < wire.len() {
                command_in(buf) is None && buffer_after(buf) == wire.take(cut + chunk.len() as int)
            } else {
                command_in(buf) == Some(c) && buffer_after(buf) == chunk.skip(wire.len() - cut)
            }
        }),
{
    let payload = command_bytes(c);
    let wire = framed(payload);
    lemma_command_len(c);
    law_header_read_back(payload, seq![]);
    assert(wire + Seq::<u8>::empty() =~= wire);
    let buf = buffer_with(wire.take(cut), chunk);
    assert(chunk.take(chunk.len() as int) =~= chunk);
    assert(buf =~= wire.take(cut) + chunk);
    if cut + chunk.len() < wire.len() {
        assert(buf =~= wire.take(cut + chunk.len() as int));
        if buf.len() >= HEADER_SIZE {
            assert(header_value(buf) == header_value(wire));
        }
    } else {
        let rest = chunk.skip(wire.len() - cut);
        assert(buf =~= wire + rest);
        law_header_read_back(payload, rest);
        law_command_read_back(c, seq![]);
        assert(payload + Seq::<u8>::empty() =~= payload);
        assert(buf.skip(wire.len() as int) =~= rest);
    }
}

proof fn lemma_command_len(c: Command)
    ensures
        2 <= command_bytes(c).len() <= 4,
{
    law_u32_read_back(0, seq![]);
    law_u32_read_back(1, seq![]);
    if let Command::SetDataRate(rate) = c {
        law_u16_read_back(rate.0, seq![]);
    }
}

// ---------------------------------------------------------------------------
// Sending
// ---------------------------------------------------------------------------

/// What is left to send of `data` after the socket took `written` bytes. A socket
/// that takes nothing has lost its peer: `None`.
pub fn unsent(data: &[u8], written: usize) -> (r: Option<&[u8]>)
    requires
        written <= data@.len(),
    ensures
        r is None <==> written == 0,
        r matches Some(rest) ==> rest@ == data@.skip(written as int),
{
    if written == 0 {
        None
    } else {
        let (_, rest) = data.split_at(written);
        Some(rest)
    }
}

/// Pause before another connection attempt, in milliseconds.
pub const RECONNECT_MS: u32 = 3000;

/// Pause while the converter is being reconfigured, in milliseconds.
pub const RECONFIG_MS: u32 = 1;

/// Pause while there is nothing to send, in milliseconds.
pub const IDLE_MS: u32 = 10;

/// Where the streaming loop stands.
#[derive(Debug, Clone, Copy, PartialEq, Eq, Structural)]
pub enum Phase {
    /// Opening a connection.
    Connecting,
    /// Reading the first command of a round.
    FirstCommand,
    /// Letting the reconfiguration run after a command.
    Yielding,
    /// Reading the other commands of a round.
    MoreCommands,
    /// Taking keyphasor edges out of their queue.
    Edges,
    /// Sending a keyphasor edge.
    SendingEdge,
    /// Taking samples out of their queue.
    Samples,
    /// Sending a batch.
    SendingBatch,
    /// Pausing between two rounds.
    Pausing,
    /// Pausing before another connection attempt.
    Recovering,
}

/// What the loop asks to be done.
pub enum StreamAction {
    /// Open a connection.
    Connect,
    /// Read what the socket has, if anything, and hand it to the command buffer.
    ReadCommand,
    /// Wait; other tasks run meanwhile, also for 0 ms.
    Sleep(u32),
    /// Take one keyphasor edge out of its queue.
    TakeEdge,
    /// Take a batch of samples out of their queue.
    TakeSamples,
    /// Write these bytes to the socket.
    Send(Vec<u8>),
}

/// What has been done.
pub enum StreamEvent<'a> {
    /// The connection attempt ended; whether it succeeded.
    Connected(bool),
    /// The socket was looked at; whether a command came out.
    CommandRead(bool),
    /// The wait is over.
    Slept,
    /// What the keyphasor queue gave.
    Edge(Option<KpEvent>),
    /// What the sample queue gave, with the settings that it was captured under
    /// and whether they are being changed.
    Batch {
        samples: &'a SampleBatch,
        sample_rate: SampleRateHz,
        pga: u8,
        reconfiguring: bool,
    },
    /// The bytes were written; whether that succeeded.
    Sent(bool),
}

/// Whether an event is one that the loop has asked for.
pub open spec fn expects(phase: Phase, event: StreamEvent<'_>) -> bool {
    match phase {
        Phase::Connecting => event is Connected,
        Phase::FirstCommand | Phase::MoreCommands => event is CommandRead,
        Phase::Yielding | Phase::Pausing | Phase::Recovering => event is Slept,
        Phase::Edges => event is Edge,
        Phase::Samples => event is Batch,
        Phase::SendingEdge | Phase::SendingBatch => event is Sent,
    }
}

/// The frame that a keyphasor edge goes out in.
pub open spec fn edge_frame(e: KpEvent) -> FrameView {
    FrameView::Keyphasor { tick: e.tick }
}

/// The frame that a batch goes out in.
pub open spec fn batch_frame(
    seq: u32,
    samples: Seq<Sample>,
    sample_rate: SampleRateHz,
    pga: u8,
) -> FrameView {
    FrameView::DataPacked {
        seq: PacketSeq(seq),
        sample_rate,
        pga,
        base_tick: base_tick(samples),
        packed: packed_bytes(samples),
    }
}

/// The number of the packet after the one numbered `seq`.
pub open spec fn next_seq(seq: u32) -> u32 {
    if seq == u32::MAX {
        0
    } else {
        (seq + 1) as u32
    }
}

/// Whether an event makes the loop send a batch.
pub open spec fn sends_batch(event: StreamEvent<'_>) -> bool {
    event matches StreamEvent::Batch { samples, reconfiguring, .. } && !reconfiguring
        && samples@.len() > 0
}

/// The phase after an event.
pub open spec fn phase_after(phase: Phase, event: StreamEvent<'_>) -> Phase {
    match (phase, event) {
        (Phase::Connecting, StreamEvent::Connected(ok)) => if ok {
            Phase::FirstCommand
        } else {
            Phase::Recovering
        },
        (Phase::FirstCommand, StreamEvent::CommandRead(had)) => if had {
            Phase::Yielding
        } else {
            Phase::MoreCommands
        },
        (Phase::Yielding, _) => Phase::MoreCommands,
        (Phase::MoreCommands, StreamEvent::CommandRead(had)) => if had {
            Phase::MoreCommands
        } else {
            Phase::Edges
        },
        (Phase::Edges, StreamEvent::Edge(e)) => if e is Some {
            Phase::SendingEdge
        } else {
            Phase::Samples
        },
        (Phase::SendingEdge, StreamEvent::Sent(ok)) => if ok {
            Phase::Edges
        } else {
            Phase::Recovering
        },
        (Phase::Samples, _) => if sends_batch(event) {
            Phase::SendingBatch
        } else {
            Phase::Pausing
        },
        (Phase::SendingBatch, StreamEvent::Sent(ok)) => if ok {
            Phase::FirstCommand
        } else {
            Phase::Recovering
        },
        (Phase::Pausing, _) => Phase::FirstCommand,
        (_, _) => Phase::Connecting,
    }
}

/// Whether `action` is what the loop asks for on entering `phase`, `event` having
/// led there and `seq` being the number of the last batch.
pub open spec fn asks(
    phase: Phase,
    event: StreamEvent<'_>,
    seq: u32,
    action: StreamAction,
) -> bool {
    match phase {
        Phase::Connecting => action == StreamAction::Connect,
        Phase::FirstCommand | Phase::MoreCommands => action == StreamAction::ReadCommand,
        Phase::Yielding => action == StreamAction::Sleep(0),
        Phase::Recovering => action == StreamAction::Sleep(RECONNECT_MS),
        Phase::Edges => action == StreamAction::TakeEdge,
        Phase::Samples => action == StreamAction::TakeSamples,
        Phase::Pausing => action == StreamAction::Sleep(
            if event matches StreamEvent::Batch { reconfiguring, .. } && reconfiguring {
                RECONFIG_MS
            } else {
                IDLE_MS
            },
        ),
        Phase::SendingEdge => action matches StreamAction::Send(bytes) && event
            matches StreamEvent::Edge(Some(e)) && bytes@ == framed(frame_bytes(edge_frame(e))),
        Phase::SendingBatch => action matches StreamAction::Send(bytes) && event
            matches StreamEvent::Batch { samples, sample_rate, pga, .. } && bytes@ == framed(
            frame_bytes(batch_frame(seq, samples@, sample_rate, pga)),
        ),
    }
}

/// The streaming loop. Every connection starts with an empty command buffer; the
/// packet numbers go on.
pub struct StreamLoop {
    pub phase: Phase,
    /// Number of the last batch sent.
    pub seq: u32,
    pub commands: CommandBuffer,
}

impl StreamLoop {
    pub open spec fn wf(&self) -> bool {
        self.commands.wf()
    }

    /// A loop that has yet to connect, with the action to start with.
    pub fn new() -> (r: (StreamLoop, StreamAction))
        ensures
            r.0.wf(),
            r.0.phase == Phase::Connecting,
            r.0.seq == 0,
            r.0.commands@ == Seq::<u8>::empty(),
            r.1 == StreamAction::Connect,
    {
        (
            StreamLoop { phase: Phase::Connecting, seq: 0, commands: CommandBuffer::new() },
            StreamAction::Connect,
        )
    }

    /// Takes note of an event and says what to do next.
    pub fn step(&mut self, event: StreamEvent<'_>, packed: &mut PackedBatch) -> (action: StreamAction)
        requires
            old(self).wf(),
            expects(old(self).phase, event),
        ensures
            final(self).wf(),
            final(self).phase == phase_after(old(self).phase, event),
            final(self).seq == if sends_batch(event) {
                next_seq(old(self).seq)
            } else {
                old(self).seq
            },
            final(self).commands@ == if event == StreamEvent::Connected(true) {
                Seq::<u8>::empty()
            } else {
                old(self).commands@
            },
            asks(final(self).phase, event, final(self).seq, action),
            final(packed)@ == if sends_batch(event) {
                packed_bytes(event->samples@)
            } else {
                old(packed)@
            },
    {
        match event {
            StreamEvent::Connected(ok) => {
                if ok {
                    self.commands = CommandBuffer::new();
                    self.phase = Phase::FirstCommand;
                    StreamAction::ReadCommand
                } else {
                    self.phase = Phase::Recovering;
                    StreamAction::Sleep(RECONNECT_MS)
                }
            },
            StreamEvent::CommandRead(had) => {
                if self.phase == Phase::FirstCommand {
                    if had {
                        self.phase = Phase::Yielding;
                        StreamAction::Sleep(0)
                    } else {
                        self.phase = Phase::MoreCommands;
                        StreamAction::ReadCommand
                    }
                } else if had {
                    StreamAction::ReadCommand
                } else {
                    self.phase = Phase::Edges;
                    StreamAction::TakeEdge
                }
            },
            StreamEvent::Slept => {
                if self.phase == Phase::Yielding {
                    self.phase = Phase::MoreCommands;
                    StreamAction::ReadCommand
                } else if self.phase == Phase::Pausing {
                    self.phase = Phase::FirstCommand;
                    StreamAction::ReadCommand
                } else {
                    self.phase = Phase::Connecting;
                    StreamAction::Connect
                }
            },
            StreamEvent::Edge(e) => {
                match e {
                    Some(kp) => {
                        self.phase = Phase::SendingEdge;
                        let frame = Frame::Keyphasor(kp);
                        proof {
                            law_sent_frames_fit(frame@);
                        }
                        StreamAction::Send(frame_to_wire(&frame))
                    },
                    None => {
                        self.phase = Phase::Samples;
                        StreamAction::TakeSamples
                    },
                }
            },
            StreamEvent::Batch { samples, sample_rate, pga, reconfiguring } => {
                if reconfiguring {
                    self.phase = Phase::Pausing;
                    StreamAction::Sleep(RECONFIG_MS)
                } else if samples.samples().len() == 0 {
                    self.phase = Phase::Pausing;
                    StreamAction::Sleep(IDLE_MS)
                } else {
                    self.seq = self.seq.wrapping_add(1);
                    let base = pack_samples_ch0(samples.samples(), packed);
                    proof {
                        law_packed_len(samples@);
                    }
                    let frame = Frame::DataPacked(
                        PackedPacket {
                            seq: PacketSeq(self.seq),
                            sample_rate,
                            pga,
                            base_tick: base,
                            samples: packed.bytes(),
                        },
                    );
                    proof {
                        law_sent_frames_fit(frame@);
                    }
                    self.phase = Phase::SendingBatch;
                    StreamAction::Send(frame_to_wire(&frame))
                }
            },
            StreamEvent::Sent(ok) => {
                if !ok {
                    self.phase = Phase::Recovering;
                    StreamAction::Sleep(RECONNECT_MS)
                } else if self.phase == Phase::SendingEdge {
                    self.phase = Phase::Edges;
                    StreamAction::TakeEdge
                } else {
                    self.phase = Phase::FirstCommand;
                    StreamAction::ReadCommand
                }
            },
        }
    }
}

/// What comes in is taken from its front, as much as 256 bytes have room for, behind what is
/// there; something is always taken, so the buffer never stands still.
pub proof fn law_bytes_are_taken_in(buf: Seq<u8>, chunk: Seq<u8>)
    requires
        buf.len() <= 256,
    ensures
        ({
            let n = taken(buf, chunk);
            let all = buffer_with(buf, chunk);
            &&& n <= chunk.len() && all.len() <= 256
            &&& chunk.len() > 0 ==> n > 0
            &&& n < chunk.len() ==> all.len() == 256
            &&& buf.len() < 256 ==> all.len() == buf.len() + n && all.take(buf.len() as int) == buf
            &&& buf.len() == 256 ==> all.len() == n
            &&& all.skip(all.len() - n) == chunk.take(n as int)
        }),
{
    let n = taken(buf, chunk);
    let all = buffer_with(buf, chunk);
    if buf.len() < 256 {
        assert(all.take(buf.len() as int) =~= buf);
    }
    assert(all.skip(all.len() - n) =~= chunk.take(n as int));
}

/// A frame of length 0, or of more bytes than the buffer can hold behind the length, empties
/// the buffer; one that is not all there yet leaves it as it is; a command that was read is
/// taken out with its length, and the bytes behind it stay.
pub proof fn law_frames_are_told_apart(buf: Seq<u8>)
    requires
        buf.len() <= 256,
    ensures
        ({
            let n = header_value(buf);
            &&& buf.len() < 4 ==> command_in(buf) is None && buffer_after(buf) == buf
            &&& buf.len() >= 4 && (n == 0 || n > 252) ==> command_in(buf) is None && buffer_after(
                buf,
            ).len() == 0
            &&& buf.len() >= 4 && 0 < n <= 252 && buf.len() < 4 + n ==> command_in(buf) is None
                && buffer_after(buf) == buf
            &&& command_in(buf) is Some ==> {
                &&& 0 < n && 4 + n <= buf.len()
                &&& read_command(buf.subrange(4, 4 + n as int)) == command_in(buf)
                &&& buffer_after(buf) == buf.subrange(4 + n as int, buf.len() as int)
            }
            &&& buf.len() >= 4 && 0 < n && 4 + n <= buf.len() ==> {
                &&& command_in(buf) == read_command(buf.subrange(4, 4 + n as int))
                &&& command_in(buf) is None ==> buffer_after(buf).len() == 0
            }
        }),
{
}

/// A connection that fails, when it is made or while something is sent, is made anew after
/// three seconds; nothing else leads there.
pub proof fn law_failures_reconnect(phase: Phase, event: StreamEvent<'_>, seq: u32, action: StreamAction)
    requires
        expects(phase, event),
        asks(phase_after(phase, event), event, seq, action),
    ensures
        event == StreamEvent::Connected(false) || event == StreamEvent::Sent(false) <==> action
            == StreamAction::Sleep(3000),
        event == StreamEvent::Connected(false) || event == StreamEvent::Sent(false) ==> phase_after(
            phase_after(phase, event),
            StreamEvent::Slept,
        ) == Phase::Connecting,
        action is Connect <==> phase == Phase::Recovering,
{
}

/// A round reads commands until there is none, with a turn for the other tasks after the
/// first; then takes edges until there is none, sending each; then looks at the samples once.
pub proof fn law_order_of_a_round(phase: Phase, event: StreamEvent<'_>, seq: u32, action: StreamAction)
    requires
        expects(phase, event),
        asks(phase_after(phase, event), event, seq, action),
    ensures
        event == StreamEvent::Connected(true) ==> action is ReadCommand,
        phase == Phase::FirstCommand && event == StreamEvent::CommandRead(true) ==> action
            == StreamAction::Sleep(0),
        phase == Phase::Yielding ==> action is ReadCommand,
        phase == Phase::MoreCommands && event == StreamEvent::CommandRead(true) ==> action is ReadCommand,
        action is TakeEdge <==> (phase == Phase::MoreCommands && event
            == StreamEvent::CommandRead(false)) || (phase == Phase::SendingEdge && event
            == StreamEvent::Sent(true)),
        action is TakeSamples <==> event == StreamEvent::Edge(None),
        phase == Phase::SendingBatch && event == StreamEvent::Sent(true) ==> action is ReadCommand,
        phase == Phase::Pausing ==> action is ReadCommand,
        action is Send <==> match event {
            StreamEvent::Edge(e) => e is Some,
            StreamEvent::Batch { samples, reconfiguring, .. } => samples@.len() > 0
                && !reconfiguring,
            _ => false,
        },
        event matches StreamEvent::Batch { samples, reconfiguring, .. } ==> samples@.len() == 0
            && !reconfiguring ==> action == StreamAction::Sleep(10),
{
}

/// The packets are numbered one after the other, starting over at two to the 32.
pub proof fn law_packets_are_numbered(seq: u32)
    ensures
        next_seq(seq) == (seq + 1) % 0x1_0000_0000,
{
}

/// No round starts over without having given the other tasks a turn: the loop is
/// back at the first command only after a wait, a write or a new connection.
pub proof fn law_every_round_yields(phase: Phase, event: StreamEvent<'_>)
    requires
        expects(phase, event),
        phase_after(phase, event) == Phase::FirstCommand,
    ensures
        event is Slept || event is Sent || event is Connected,
{
}

/// While the converter is being reconfigured, what was captured is not sent, and
/// the packet numbers stand still.
pub proof fn law_nothing_sent_while_reconfiguring(
    phase: Phase,
    event: StreamEvent<'_>,
    seq: u32,
    action: StreamAction,
)
    requires
        expects(phase, event),
        event matches StreamEvent::Batch { reconfiguring, .. } && reconfiguring,
        asks(phase_after(phase, event), event, seq, action),
    ensures
        !sends_batch(event),
        action == StreamAction::Sleep(RECONFIG_MS),
        action == StreamAction::Sleep(1),
{
}

/// Samples are looked at only once the keyphasor queue has given nothing: edges go
/// out before the samples of the same round.
pub proof fn law_edges_before_samples(phase: Phase, event: StreamEvent<'_>)
    requires
        expects(phase, event),
        phase_after(phase, event) == Phase::Samples,
    ensures
        event == StreamEvent::Edge(None),
{
}

} // verus!
