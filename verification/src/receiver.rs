//! The receiver's side of the link: what each frame means for the session.

use crate::link::{batch_frame, edge_frame};
use crate::packing::{
    law_packed_len, law_unpack_packed, packs_exactly, unpack_samples_ch0, unpacked, without_ch1,
};
use crate::protocol::{
    Command, FrameOwned, FrameView, KpEvent, Sample, MAX_BATCH_SIZE, MAX_PACKED_BATCH_SIZE,
    PACKED_CH0_SAMPLE_SIZE,
};
use crate::session::{
    finish_recording, law_last_command_wins, process_keyphasor, process_recording_sample, steady,
    ConnStatus, ConnStatusView, EdgeOutcome, RecordMode, SessionView, Shared, AUTO_REC_IDLE_TIMEOUT,
    LIVE_BUF_SIZE,
};
use crate::text::{append_decimal, decimal};
use crate::types::{PacketSeq, SampleRateHz};
use crate::wire::{
    frame_bytes, framed, header_value, law_frame_read_back, law_header_read_back,
    law_sent_frames_fit, parse_header, read_frame,
};
use vstd::prelude::*;

verus! {

/// The longest payload that the receiver takes. A longer one means that the
/// framing is lost.
pub const MAX_PAYLOAD: usize = 18_064;

/// Time between two reports, in nanoseconds.
pub const DIAG_PERIOD: u64 = 1_000_000_000;

/// Time between two repaints, in nanoseconds.
pub const REPAINT_PERIOD: u64 = 33_000_000;

/// The payload length in a header; `None` if the framing is lost.
pub open spec fn length_in(header: Seq<u8>) -> Option<usize> {
    if header_value(header) <= MAX_PAYLOAD {
        Some(header_value(header) as usize)
    } else {
        None
    }
}

/// The header of a payload of up to 18064 bytes gives its length, that of a longer one means
/// that the framing is lost.
pub proof fn law_length_of_a_payload(payload: Seq<u8>)
    requires
        payload.len() <= u32::MAX,
    ensures
        payload.len() <= 18_064 ==> length_in(framed(payload).take(4)) == Some(
            payload.len() as usize,
        ),
        payload.len() > 18_064 ==> length_in(framed(payload).take(4)) is None,
{
    law_header_read_back(payload, seq![]);
    assert(framed(payload) + Seq::<u8>::empty() =~= framed(payload));
    assert(header_value(framed(payload).take(4)) == header_value(framed(payload)));
}

/// Reads the payload length from a header; `None` if the framing is lost.
pub fn payload_len(header: &[u8; 4]) -> (r: Option<usize>)
    ensures
        r == length_in(header@),
{
    let n: u32 = parse_header(header);
    if n <= MAX_PAYLOAD as u32 {
        Some(n as usize)
    } else {
        None
    }
}

/// No frame that the front end sends is taken for lost framing.
pub proof fn law_sent_frames_are_taken(f: FrameView)
    requires
        f is DataPacked || f is Keyphasor,
        f matches FrameView::DataPacked { packed, .. } ==> packed.len() <= MAX_PACKED_BATCH_SIZE,
    ensures
        frame_bytes(f).len() <= MAX_PAYLOAD,
{
    law_sent_frames_fit(f);
}

// ---------------------------------------------------------------------------
// Diagnostics
// ---------------------------------------------------------------------------

/// Counters of a connection.
#[derive(Debug, Clone, Copy, PartialEq, Eq, Structural)]
pub struct SessionDiag {
    pub started_at: u64,
    pub last_print_at: u64,
    pub last_repaint_at: u64,
    pub packets: u64,
    pub samples: u64,
    pub keyphasors: u64,
    pub seq_gaps: u64,
}

/// What there is to report.
#[derive(Debug, Clone, Copy, PartialEq, Eq, Structural)]
pub struct DiagReport {
    /// Time since the connection was made.
    pub uptime: u64,
    /// Time that the counts are over.
    pub elapsed: u64,
    pub packets: u64,
    pub samples: u64,
    pub keyphasors: u64,
    /// Packets lost since the connection was made.
    pub seq_gaps: u64,
}

/// The time from `since` to `now`, 0 if the clock has not got that far.
pub open spec fn elapsed(since: u64, now: u64) -> u64 {
    if now >= since {
        (now - since) as u64
    } else {
        0
    }
}

impl SessionDiag {
    /// Counters at 0.
    pub fn new(now: u64) -> (r: SessionDiag)
        ensures
            r == (SessionDiag {
                started_at: now,
                last_print_at: now,
                last_repaint_at: now,
                packets: 0,
                samples: 0,
                keyphasors: 0,
                seq_gaps: 0,
            }),
    {
        SessionDiag {
            started_at: now,
            last_print_at: now,
            last_repaint_at: now,
            packets: 0,
            samples: 0,
            keyphasors: 0,
            seq_gaps: 0,
        }
    }

    /// Counts a packet.
    pub fn note_packet(&mut self, sample_count: usize)
        requires
            old(self).packets < u64::MAX,
            old(self).samples + sample_count <= u64::MAX,
        ensures
            *final(self) == (SessionDiag {
                packets: (old(self).packets + 1) as u64,
                samples: (old(self).samples + sample_count) as u64,
                ..*old(self)
            }),
    {
        self.packets = self.packets + 1;
        self.samples = self.samples + sample_count as u64;
    }

    /// Counts a keyphasor edge.
    pub fn note_keyphasor(&mut self)
        requires
            old(self).keyphasors < u64::MAX,
        ensures
            *final(self) == (SessionDiag {
                keyphasors: (old(self).keyphasors + 1) as u64,
                ..*old(self)
            }),
    {
        self.keyphasors = self.keyphasors + 1;
    }

    /// Counts lost packets.
    pub fn note_seq_gap(&mut self, gap: u32)
        requires
            old(self).seq_gaps + gap <= u64::MAX,
        ensures
            *final(self) == (SessionDiag {
                seq_gaps: (old(self).seq_gaps + gap) as u64,
                ..*old(self)
            }),
    {
        self.seq_gaps = self.seq_gaps + gap as u64;
    }

    /// The report that is due, if any. The counts start anew then, except for the
    /// lost packets.
    pub fn report(&mut self, now: u64) -> (r: Option<DiagReport>)
        ensures
            r is Some <==> elapsed(old(self).last_print_at, now) >= DIAG_PERIOD,
            r is Some <==> now - old(self).last_print_at >= 1_000_000_000,
            r matches Some(d) ==> d == (DiagReport {
                uptime: elapsed(old(self).started_at, now),
                elapsed: elapsed(old(self).last_print_at, now),
                packets: old(self).packets,
                samples: old(self).samples,
                keyphasors: old(self).keyphasors,
                seq_gaps: old(self).seq_gaps,
            }) && *final(self) == (SessionDiag {
                last_print_at: now,
                packets: 0,
                samples: 0,
                keyphasors: 0,
                ..*old(self)
            }),
            r is None ==> *final(self) == *old(self),
    {
        let dt: u64 = now.saturating_sub(self.last_print_at);
        if dt < DIAG_PERIOD {
            return None;
        }
        let r = DiagReport {
            uptime: now.saturating_sub(self.started_at),
            elapsed: dt,
            packets: self.packets,
            samples: self.samples,
            keyphasors: self.keyphasors,
            seq_gaps: self.seq_gaps,
        };
        self.last_print_at = now;
        self.packets = 0;
        self.samples = 0;
        self.keyphasors = 0;
        Some(r)
    }

    /// Whether the screen is to be painted anew.
    pub fn repaint_due(&mut self, now: u64) -> (r: bool)
        ensures
            r == (elapsed(old(self).last_repaint_at, now) >= REPAINT_PERIOD),
            r <==> now - old(self).last_repaint_at >= 33_000_000,
            *final(self) == if r {
                SessionDiag { last_repaint_at: now, ..*old(self) }
            } else {
                *old(self)
            },
    {
        if now.saturating_sub(self.last_repaint_at) >= REPAINT_PERIOD {
            self.last_repaint_at = now;
            true
        } else {
            false
        }
    }
}

// ---------------------------------------------------------------------------
// The session after a frame
// ---------------------------------------------------------------------------

/// The last `n` items.
pub open spec fn last_of<T>(s: Seq<T>, n: nat) -> Seq<T> {
    if s.len() <= n {
        s
    } else {
        s.skip(s.len() - n)
    }
}

impl SessionView {
    /// The session with the settings that a packet shows. At another rate than
    /// before, what the live buffer holds is worth nothing.
    pub open spec fn with_stream(
        self,
        seq: PacketSeq,
        rate: SampleRateHz,
        pga: u8,
        now: u64,
    ) -> SessionView {
        let live = if self.sample_rate != rate && self.sample_rate.0 != 0 {
            seq![]
        } else {
            self.live_buf
        };
        let s = SessionView { live_buf: live, sample_rate: rate, pga, ..self };
        SessionView {
            last_seq: seq,
            last_packet_at: Some(now),
            ..s.with_packet(rate).with_retry(rate, now)
        }
    }

    /// The session with samples taken in.
    pub open spec fn with_samples(self, samples: Seq<Sample>) -> SessionView {
        SessionView {
            live_buf: last_of(self.live_buf + samples, LIVE_BUF_SIZE as nat),
            rev_buf: self.rev_buf + samples,
            rec_buf: if self.keeps_samples() {
                self.rec_buf + samples
            } else {
                self.rec_buf
            },
            total_samples: (self.total_samples + samples.len()) as u64,
            ..self
        }
    }

    /// Whether an automatic recording has gone without an edge for too long.
    pub open spec fn auto_idle(self, now: u64) -> bool {
        &&& self.recording
        &&& self.auto_rec_last_kp_at is Some
        &&& elapsed(self.auto_rec_last_kp_at->0, now) > AUTO_REC_IDLE_TIMEOUT
    }

    /// The session after a batch, with its commands still in the queue.
    pub open spec fn with_batch(
        self,
        seq: PacketSeq,
        rate: SampleRateHz,
        pga: u8,
        samples: Seq<Sample>,
        now: u64,
    ) -> SessionView {
        let s = self.with_stream(seq, rate, pga, now).with_samples(samples);
        if s.auto_idle(now) {
            s.finished()
        } else {
            s
        }
    }

    /// The session after an edge was noted and before it is acted on.
    pub open spec fn with_tick(self, tick: u64, now: u64) -> SessionView {
        SessionView {
            keyphasor_count: (self.keyphasor_count + 1) as u64,
            last_keyphasor_at: Some(now),
            kp_last_total: self.total_samples,
            kp_ticks: self.kp_ticks.push(tick),
            rec_kp_ticks: if self.recording {
                self.rec_kp_ticks.push(tick)
            } else {
                self.rec_kp_ticks
            },
            ..self
        }
    }

    /// The session after the connection was lost.
    pub open spec fn disconnected(self, why: Seq<char>) -> SessionView {
        SessionView {
            pending_pga: None,
            pending_rate: None,
            pending_rate_since: None,
            status: ConnStatusView::Disconnected(why),
            ..self
        }
    }

    /// Whether the counters have room for `n` more samples and another edge.
    pub open spec fn has_room(self, n: int) -> bool {
        &&& self.total_samples + n <= u64::MAX
        &&& self.keyphasor_count < u64::MAX
        &&& self.rec_captured_revs < usize::MAX
    }
}

fn take_stream(shared: &mut Shared, seq: PacketSeq, rate: SampleRateHz, pga: u8, now: u64)
    requires
        old(shared)@.wf(),
    ensures
        final(shared)@.wf(),
        final(shared)@ == old(shared)@.with_stream(seq, rate, pga, now),
{
    if shared.sample_rate != rate && shared.sample_rate.0 != 0 {
        shared.live_buf.clear();
    }
    shared.sample_rate = rate;
    shared.pga = pga;
    shared.note_stream_packet(rate);
    shared.retry_stuck_rate_change(rate, now);
    shared.last_seq = seq;
    shared.last_packet_at = Some(now);
    assert(shared@ =~= old(shared)@.with_stream(seq, rate, pga, now));
}

fn take_samples(shared: &mut Shared, samples: &Vec<Sample>)
    requires
        old(shared)@.wf(),
        old(shared)@.total_samples + samples@.len() <= u64::MAX,
    ensures
        final(shared)@.wf(),
        final(shared)@ == old(shared)@.with_samples(samples@),
{
    let ghost before = shared@;
    for i in 0..samples.len()
        invariant
            before.wf(),
            shared@.wf(),
            shared@ == (SessionView {
                total_samples: before.total_samples,
                ..before.with_samples(samples@.take(i as int))
            }),
    {
        let s: Sample = samples[i];
        let ghost all = before.live_buf + samples@.take(i as int);
        if shared.live_buf.len() >= LIVE_BUF_SIZE {
            let _ = shared.live_buf.pop_front();
        }
        shared.live_buf.push_back(s);
        shared.rev_buf.push(s);
        process_recording_sample(shared, s);
        proof {
            let now = samples@.take(i + 1);
            assert(now =~= samples@.take(i as int).push(s));
            assert(before.live_buf + now =~= all.push(s));
            assert(shared.live_buf@ =~= last_of(all.push(s), LIVE_BUF_SIZE as nat));
            assert(shared.rev_buf@ =~= before.rev_buf + now);
            if before.keeps_samples() {
                assert(shared.rec_buf@ =~= before.rec_buf + now);
            }
            assert(shared@ =~= (SessionView {
                total_samples: before.total_samples,
                ..before.with_samples(now)
            }));
        }
    }
    assert(samples@.take(samples@.len() as int) =~= samples@);
    shared.total_samples = shared.total_samples + samples.len() as u64;
    assert(shared@ =~= before.with_samples(samples@));
}

impl Shared {
    /// Takes note that the connection was lost, and why.
    pub fn disconnect(&mut self, why: String)
        ensures
            final(self)@ == old(self)@.disconnected(why@),
    {
        self.clear_pending_commands();
        self.status = ConnStatus::Disconnected(why);
        assert(self@ =~= old(self)@.disconnected(why@));
    }

    /// The commands that bring a front end that has just connected to what the user
    /// wants. A rate of 0 is no wish.
    pub fn initial_commands(&self) -> (r: Vec<Command>)
        ensures
            r@ == if self@.desired_rate.0 != 0 {
                seq![Command::SetPga(self@.desired_pga), Command::SetDataRate(self@.desired_rate)]
            } else {
                seq![Command::SetPga(self@.desired_pga)]
            },
            forall|c: Command| #[trigger]
                r@.contains(c) <==> match c {
                    Command::SetPga(pga) => pga == self@.desired_pga,
                    Command::SetDataRate(rate) => rate == self@.desired_rate && rate.0 > 0,
                },
    {
        let mut out: Vec<Command> = Vec::new();
        out.push(Command::SetPga(self.desired_pga));
        if self.desired_rate.0 != 0 {
            out.push(Command::SetDataRate(self.desired_rate));
        }
        assert(out@ =~= if self@.desired_rate.0 != 0 {
            seq![Command::SetPga(self@.desired_pga), Command::SetDataRate(self@.desired_rate)]
        } else {
            seq![Command::SetPga(self@.desired_pga)]
        });
        assert(out@[0] == Command::SetPga(self@.desired_pga));
        assert(self@.desired_rate.0 != 0 ==> out@[1] == Command::SetDataRate(self@.desired_rate));
        out
    }

    /// Takes the commands that are to be sent out of the queue.
    pub fn take_commands(&mut self) -> (r: Vec<Command>)
        ensures
            r@ == old(self)@.cmd_queue,
            final(self)@ == (SessionView { cmd_queue: seq![], ..old(self)@ }),
    {
        let mut out: Vec<Command> = Vec::new();
        std::mem::swap(&mut out, &mut self.cmd_queue);
        assert(self@ =~= (SessionView { cmd_queue: seq![], ..old(self)@ }));
        out
    }
}

/// Takes in a batch. Returns whether an automatic recording was ended for want of
/// edges and, if so, whether it was kept.
pub fn apply_batch(
    shared: &mut Shared,
    seq: PacketSeq,
    rate: SampleRateHz,
    pga: u8,
    samples: &Vec<Sample>,
    now: u64,
) -> (finished: Option<bool>)
    requires
        old(shared)@.wf(),
        old(shared)@.total_samples + samples@.len() <= u64::MAX,
    ensures
        final(shared)@.wf(),
        final(shared)@ == old(shared)@.with_batch(seq, rate, pga, samples@, now),
        ({
            let s = old(shared)@.with_stream(seq, rate, pga, now).with_samples(samples@);
            finished == if s.auto_idle(now) {
                Some(s.rec_buf.len() > 0)
            } else {
                None
            }
        }),
{
    take_stream(shared, seq, rate, pga, now);
    take_samples(shared, samples);
    if shared.recording {
        if let Some(last) = shared.auto_rec_last_kp_at {
            if now.saturating_sub(last) > AUTO_REC_IDLE_TIMEOUT {
                return Some(finish_recording(shared));
            }
        }
    }
    None
}

/// Takes in a keyphasor edge.
pub fn apply_edge(shared: &mut Shared, edge: KpEvent, now: u64) -> (r: EdgeOutcome)
    requires
        old(shared)@.wf(),
        old(shared)@.has_room(0),
    ensures
        final(shared)@.wf(),
        final(shared)@ == old(shared)@.with_tick(edge.tick, now).after_edge(now),
        ({
            let s = old(shared)@.with_tick(edge.tick, now);
            &&& r.started == (s.auto_rec_armed && steady(s.kp_ticks))
            &&& match r.revolution {
                Some(samples) => s.revolution_ready() && samples@ == s.rev_buf,
                None => !s.revolution_ready(),
            }
            &&& r.finished == if s.auto_edge(now).edge_completes() {
                Some(s.rec_buf.len() > 0)
            } else {
                None
            }
        }),
{
    shared.keyphasor_count = shared.keyphasor_count + 1;
    shared.last_keyphasor_at = Some(now);
    shared.kp_last_total = shared.total_samples;
    shared.kp_ticks.push(edge.tick);
    if shared.recording {
        shared.rec_kp_ticks.push(edge.tick);
    }
    assert(shared@ =~= old(shared)@.with_tick(edge.tick, now));
    process_keyphasor(shared, now)
}

// ---------------------------------------------------------------------------
// A connection
// ---------------------------------------------------------------------------

/// The packets missing between the one expected and the one that came.
pub open spec fn packets_lost(expected: Option<u32>, seq: u32) -> u32 {
    match expected {
        Some(e) => if seq >= e {
            (seq - e) as u32
        } else {
            (seq - e + 0x1_0000_0000) as u32
        },
        None => 0,
    }
}

/// The number of the packet after the one numbered `seq`.
pub open spec fn seq_after(seq: u32) -> u32 {
    if seq == u32::MAX {
        0
    } else {
        (seq + 1) as u32
    }
}

/// Packets that follow one another are never taken for a loss, not even where the
/// numbers start over.
pub proof fn law_no_loss_in_sequence(seq: u32)
    ensures
        packets_lost(Some(seq_after(seq)), seq_after(seq)) == 0,
        seq_after(seq) == crate::link::next_seq(seq),
{
}

/// A run of missing packets is counted by its length.
pub proof fn law_loss_is_counted(expected: u32, n: u32)
    ensures
        packets_lost(Some(expected), ((expected + n) % 0x1_0000_0000) as u32) == n,
{
}

/// A connection under way.
pub struct Connection {
    /// Number that the next packet should have.
    pub expected_seq: Option<u32>,
    pub diag: SessionDiag,
}

/// What came of a frame.
pub struct FrameOutcome {
    /// Packets that were lost before this frame.
    pub lost: u32,
    /// Commands to be sent now.
    pub commands: Vec<Command>,
    /// An automatic recording was ended for want of edges; whether it was kept.
    pub finished: Option<bool>,
    /// What came of a keyphasor edge.
    pub edge: Option<EdgeOutcome>,
    /// The connection is to be closed.
    pub disconnect: bool,
}

/// Number of samples in a frame, as far as they are counted.
pub open spec fn sample_count(f: FrameView) -> nat {
    match f {
        FrameView::Data { samples, .. } => samples.len(),
        FrameView::DataPacked { packed, .. } => packed.len() / PACKED_CH0_SAMPLE_SIZE as nat,
        FrameView::Keyphasor { .. } => 0,
    }
}

/// Whether a frame is a packed batch that does not consist of whole samples.
pub open spec fn is_ragged(f: FrameView) -> bool {
    f matches FrameView::DataPacked { packed, .. } && packed.len() % PACKED_CH0_SAMPLE_SIZE as nat
        != 0
}

/// Why a connection is closed over a ragged batch of `n` bytes.
pub open spec fn ragged_reason(peer: Seq<char>, n: nat) -> Seq<char> {
    peer + ": invalid packed payload len="@ + decimal(n)
}

fn ragged_text(peer: &str, n: usize) -> (r: String)
    ensures
        r@ == ragged_reason(peer@, n as nat),
{
    let mut out = String::new();
    out.append(peer);
    out.append(": invalid packed payload len=");
    append_decimal(&mut out, n as u64);
    assert(out@ =~= ragged_reason(peer@, n as nat));
    out
}

/// The session after a frame from `peer`, and the commands to be sent.
pub open spec fn session_after(
    s: SessionView,
    f: FrameView,
    peer: Seq<char>,
    now: u64,
) -> (SessionView, Seq<Command>) {
    match f {
        FrameView::Data { seq, sample_rate, pga, samples } => {
            let t = s.with_batch(seq, sample_rate, pga, samples, now);
            (SessionView { cmd_queue: seq![], ..t }, t.cmd_queue)
        },
        FrameView::DataPacked { seq, sample_rate, pga, base_tick, packed } => if is_ragged(f) {
            (s.disconnected(ragged_reason(peer, packed.len())), seq![])
        } else {
            let t = s.with_batch(seq, sample_rate, pga, unpacked(packed, base_tick), now);
            (SessionView { cmd_queue: seq![], ..t }, t.cmd_queue)
        },
        FrameView::Keyphasor { tick } => (s.with_tick(tick, now).after_edge(now), seq![]),
    }
}

/// Whether a frame ends an automatic recording for want of edges and, if so,
/// whether the recording is kept.
pub open spec fn idle_end(s: SessionView, f: FrameView, now: u64) -> Option<bool> {
    match f {
        FrameView::Data { seq, sample_rate, pga, samples } => {
            let t = s.with_stream(seq, sample_rate, pga, now).with_samples(samples);
            if t.auto_idle(now) {
                Some(t.rec_buf.len() > 0)
            } else {
                None
            }
        },
        FrameView::DataPacked { seq, sample_rate, pga, base_tick, packed } => {
            let t = s.with_stream(seq, sample_rate, pga, now).with_samples(
                unpacked(packed, base_tick),
            );
            if !is_ragged(f) && t.auto_idle(now) {
                Some(t.rec_buf.len() > 0)
            } else {
                None
            }
        },
        FrameView::Keyphasor { .. } => None,
    }
}

/// The number of a batch.
pub open spec fn frame_seq(f: FrameView) -> Option<u32> {
    match f {
        FrameView::Data { seq, .. } => Some(seq.0),
        FrameView::DataPacked { seq, .. } => Some(seq.0),
        FrameView::Keyphasor { .. } => None,
    }
}

impl Connection {
    /// A connection that has just been made.
    pub fn new(now: u64) -> (r: Connection)
        ensures
            r.expected_seq is None,
            r.diag == (SessionDiag {
                started_at: now,
                last_print_at: now,
                last_repaint_at: now,
                packets: 0,
                samples: 0,
                keyphasors: 0,
                seq_gaps: 0,
            }),
    {
        Connection { expected_seq: None, diag: SessionDiag::new(now) }
    }

    /// Whether the counters have room for `n` more samples in one more packet,
    /// whatever was lost before it.
    pub open spec fn has_room(&self, n: int) -> bool {
        &&& self.diag.packets < u64::MAX
        &&& self.diag.samples + n <= u64::MAX
        &&& self.diag.keyphasors < u64::MAX
        &&& self.diag.seq_gaps + u32::MAX <= u64::MAX
    }

    /// The counters after a frame.
    pub open spec fn diag_after(&self, f: FrameView) -> SessionDiag {
        let d = self.diag;
        match frame_seq(f) {
            None => SessionDiag { keyphasors: (d.keyphasors + 1) as u64, ..d },
            Some(seq) => {
                let e = SessionDiag {
                    seq_gaps: (d.seq_gaps + packets_lost(self.expected_seq, seq)) as u64,
                    ..d
                };
                if is_ragged(f) {
                    e
                } else {
                    SessionDiag {
                        packets: (d.packets + 1) as u64,
                        samples: (d.samples + sample_count(f)) as u64,
                        ..e
                    }
                }
            },
        }
    }

    /// Takes note of the number of a packet. Returns how many were lost before it.
    fn note_seq(&mut self, seq: u32) -> (lost: u32)
        requires
            old(self).diag.seq_gaps + u32::MAX <= u64::MAX,
        ensures
            lost == packets_lost(old(self).expected_seq, seq),
            final(self).expected_seq == Some(seq_after(seq)),
            final(self).diag == (SessionDiag {
                seq_gaps: (old(self).diag.seq_gaps + lost) as u64,
                ..old(self).diag
            }),
    {
        let lost: u32 = match self.expected_seq {
            Some(expected) => seq.wrapping_sub(expected),
            None => 0,
        };
        self.diag.note_seq_gap(lost);
        self.expected_seq = Some(seq.wrapping_add(1));
        lost
    }

    /// Takes in a frame from `peer`.
    pub fn handle_frame(
        &mut self,
        shared: &mut Shared,
        frame: FrameOwned,
        peer: &str,
        now: u64,
    ) -> (r: FrameOutcome)
        requires
            old(shared)@.wf(),
            old(shared)@.has_room(sample_count(frame@) as int),
            old(self).has_room(sample_count(frame@) as int),
        ensures
            final(shared)@.wf(),
            final(shared)@ == session_after(old(shared)@, frame@, peer@, now).0,
            r.commands@ == session_after(old(shared)@, frame@, peer@, now).1,
            r.disconnect == is_ragged(frame@),
            final(self).diag == old(self).diag_after(frame@),
            match frame_seq(frame@) {
                Some(seq) => r.lost == packets_lost(old(self).expected_seq, seq)
                    && final(self).expected_seq == Some(seq_after(seq)) && r.edge is None,
                None => r.lost == 0 && final(self).expected_seq == old(self).expected_seq
                    && r.edge is Some,
            },
            r.finished == idle_end(old(shared)@, frame@, now),
            frame@ matches FrameView::Keyphasor { tick } ==> ({
                let s = old(shared)@.with_tick(tick, now);
                let e = r.edge->0;
                &&& e.started == (s.auto_rec_armed && steady(s.kp_ticks))
                &&& match e.revolution {
                    Some(samples) => s.revolution_ready() && samples@ == s.rev_buf,
                    None => !s.revolution_ready(),
                }
                &&& e.finished == if s.auto_edge(now).edge_completes() {
                    Some(s.rec_buf.len() > 0)
                } else {
                    None
                }
            }),
    {
        match frame {
            FrameOwned::Data(p) => {
                let lost = self.note_seq(p.seq.0);
                self.diag.note_packet(p.samples.len());
                let finished = apply_batch(
                    shared,
                    p.seq,
                    p.sample_rate,
                    p.pga,
                    &p.samples,
                    now,
                );
                let commands = shared.take_commands();
                FrameOutcome { lost, commands, finished, edge: None, disconnect: false }
            },
            FrameOwned::DataPacked(p) => {
                let lost = self.note_seq(p.seq.0);
                if p.samples.len() % PACKED_CH0_SAMPLE_SIZE != 0 {
                    shared.disconnect(ragged_text(peer, p.samples.len()));
                    return FrameOutcome {
                        lost,
                        commands: Vec::new(),
                        finished: None,
                        edge: None,
                        disconnect: true,
                    };
                }
                let samples = unpack_samples_ch0(p.samples.as_slice(), p.base_tick);
                self.diag.note_packet(samples.len());
                let finished = apply_batch(shared, p.seq, p.sample_rate, p.pga, &samples, now);
                let commands = shared.take_commands();
                FrameOutcome { lost, commands, finished, edge: None, disconnect: false }
            },
            FrameOwned::Keyphasor(e) => {
                self.diag.note_keyphasor();
                let edge = apply_edge(shared, e, now);
                FrameOutcome {
                    lost: 0,
                    commands: Vec::new(),
                    finished: None,
                    edge: Some(edge),
                    disconnect: false,
                }
            },
        }
    }
}

/// What the front end captures is what the session takes in: a batch that it sends
/// is read back by the receiver, and its samples reach the session as they were
/// captured, channel 1 left out.
pub proof fn law_batch_reaches_session(
    s: SessionView,
    n: u32,
    samples: Seq<Sample>,
    rate: SampleRateHz,
    pga: u8,
    peer: Seq<char>,
    now: u64,
)
    requires
        samples.len() <= MAX_BATCH_SIZE,
        packs_exactly(samples),
    ensures
        ({
            let f = batch_frame(n, samples, rate, pga);
            let t = s.with_batch(
                PacketSeq(n),
                rate,
                pga,
                samples.map_values(|x: Sample| without_ch1(x)),
                now,
            );
            &&& read_frame(frame_bytes(f)) == Some(f)
            &&& frame_bytes(f).len() <= MAX_PAYLOAD
            &&& session_after(s, f, peer, now) == (SessionView { cmd_queue: seq![], ..t }, t.cmd_queue)
        }),
{
    let f = batch_frame(n, samples, rate, pga);
    law_packed_len(samples);
    law_unpack_packed(samples);
    law_frame_read_back(f, seq![]);
    assert(frame_bytes(f) + Seq::<u8>::empty() =~= frame_bytes(f));
    law_sent_frames_are_taken(f);
    assert((PACKED_CH0_SAMPLE_SIZE * samples.len()) % PACKED_CH0_SAMPLE_SIZE as int == 0);
}

/// A packed batch at the rate of the session, taken in while the counters have room: the
/// live buffer holds the last of what it held and of the samples that were packed, channel
/// 1 left out; the revolution under way goes on with them; and they are counted.
pub proof fn law_packed_batch_is_taken_in(
    s: SessionView,
    n: u32,
    samples: Seq<Sample>,
    pga: u8,
    peer: Seq<char>,
    now: u64,
)
    requires
        samples.len() <= MAX_BATCH_SIZE,
        packs_exactly(samples),
        s.has_room(samples.len() as int),
    ensures
        ({
            let f = batch_frame(n, samples, s.sample_rate, pga);
            let t = session_after(s, f, peer, now).0;
            let taken = samples.map_values(|x: Sample| without_ch1(x));
            &&& sample_count(f) == samples.len()
            &&& !is_ragged(f)
            &&& t.live_buf == last_of(s.live_buf + taken, LIVE_BUF_SIZE as nat)
            &&& t.rev_buf == s.rev_buf + taken
            &&& t.total_samples == s.total_samples + samples.len()
            &&& t.last_seq == PacketSeq(n)
            &&& t.pga == pga
            &&& t.sample_rate == s.sample_rate
        }),
{
    law_batch_reaches_session(s, n, samples, s.sample_rate, pga, peer, now);
    law_packed_len(samples);
}

/// The last `n` items are as many as there are, `n` at most, and end where all of them end.
pub proof fn law_last_of<T>(s: Seq<T>, n: nat)
    ensures
        last_of(s, n).len() <= n,
        s.len() <= n ==> last_of(s, n) == s,
        s.len() > n ==> last_of(s, n).len() == n,
        forall|i: int|
            #![trigger last_of(s, n)[i]]
            0 <= i < last_of(s, n).len() ==> last_of(s, n)[i] == s[s.len() - last_of(s, n).len()
                + i],
{
}

/// A batch of both channels is taken in sample by sample, whatever its rate: at another
/// rate than before the live buffer starts anew, else it goes on. The revolution under way
/// goes on either way, all samples are counted, and a recording that takes samples gets all
/// of them behind those it has.
pub proof fn law_batch_is_taken_in(
    s: SessionView,
    seq: PacketSeq,
    rate: SampleRateHz,
    pga: u8,
    samples: Seq<Sample>,
    peer: Seq<char>,
    now: u64,
)
    requires
        s.has_room(samples.len() as int),
    ensures
        ({
            let f = FrameView::Data { seq, sample_rate: rate, pga, samples };
            let t = session_after(s, f, peer, now).0;
            let live = if s.sample_rate == rate || s.sample_rate.0 == 0 {
                s.live_buf + samples
            } else {
                samples
            };
            &&& t.live_buf == last_of(live, 8192)
            &&& t.rev_buf == s.rev_buf + samples
            &&& t.total_samples == s.total_samples + samples.len()
            &&& t.sample_rate == rate && t.pga == pga && t.last_seq == seq
            &&& t.last_packet_at == Some(now)
            &&& t.kp_ticks == s.kp_ticks && t.keyphasor_count == s.keyphasor_count
            &&& t.rev_trend == s.rev_trend && t.status == s.status
            &&& t.pending_pga is None && t.cmd_queue.len() == 0
            &&& t.desired_pga == s.desired_pga && t.desired_rate == s.desired_rate
            &&& s.recording && s.auto_rec_last_kp_at is None ==> {
                &&& t.recording && t.recordings == s.recordings
                &&& t.rec_kp_ticks == s.rec_kp_ticks
                &&& t.rec_buf == if s.record_mode == RecordMode::Revolutions && s.rec_waiting_kp {
                    s.rec_buf
                } else {
                    s.rec_buf + samples
                }
            }
            &&& !s.recording ==> {
                &&& !t.recording && t.recordings == s.recordings && t.rec_buf == s.rec_buf
                &&& t.auto_rec_armed == s.auto_rec_armed
            }
        }),
{
    assert(Seq::<Sample>::empty() + samples =~= samples);
}

/// The commands that a batch sets off are those that were in the queue and, if a rate
/// change has gone unheeded, the rate that the user wants.
pub proof fn law_queue_is_sent_with_a_batch(
    s: SessionView,
    seq: PacketSeq,
    rate: SampleRateHz,
    pga: u8,
    samples: Seq<Sample>,
    peer: Seq<char>,
    now: u64,
)
    requires
        s.wf(),
    ensures
        ({
            let f = FrameView::Data { seq, sample_rate: rate, pga, samples };
            let sent = session_after(s, f, peer, now).1;
            &&& s.pending_rate is None || s.pending_rate == Some(rate) ==> sent == s.cmd_queue
            &&& s.pending_rate_since is Some && now - s.pending_rate_since->0 < 750_000_000 ==> sent
                == s.cmd_queue
            &&& s.pending_rate is Some && s.pending_rate != Some(rate) && s.desired_rate != rate
                && s.pending_rate_since is Some && now - s.pending_rate_since->0 >= 750_000_000
                ==> sent.contains(Command::SetDataRate(s.desired_rate))
        }),
{
    let live = if s.sample_rate != rate && s.sample_rate.0 != 0 {
        seq![]
    } else {
        s.live_buf
    };
    let t = (SessionView { live_buf: live, sample_rate: rate, pga, ..s }).with_packet(rate);
    law_last_command_wins(t.without_pending_rate(), Command::SetDataRate(t.desired_rate));
}

/// An edge is counted and kept with its tick, in the recording under way too, before it is
/// acted on.
pub proof fn law_edge_is_noted(s: SessionView, tick: u64, now: u64)
    requires
        s.has_room(0),
    ensures
        ({
            let t = s.with_tick(tick, now);
            &&& t.kp_ticks == s.kp_ticks.push(tick)
            &&& t.keyphasor_count == s.keyphasor_count + 1
            &&& t.last_keyphasor_at == Some(now)
            &&& t.kp_last_total == s.total_samples
            &&& t.rec_kp_ticks.len() == s.rec_kp_ticks.len() + if s.recording {
                1int
            } else {
                0
            }
            &&& s.recording ==> t.rec_kp_ticks.last() == tick
            &&& t.same_commands(s)
            &&& t.rec_buf == s.rec_buf && t.recording == s.recording
            &&& t.recordings == s.recordings && t.live_buf == s.live_buf
            &&& t.rev_buf == s.rev_buf && t.rev_trend == s.rev_trend
        }),
{
}

/// A packed batch is refused if and only if it does not consist of whole samples of six
/// bytes; the connection is then given up, and what was on its way forgotten, but nothing
/// else is changed.
pub proof fn law_ragged_batch_is_refused(
    s: SessionView,
    seq: PacketSeq,
    rate: SampleRateHz,
    pga: u8,
    base_tick: u64,
    packed: Seq<u8>,
    peer: Seq<char>,
    now: u64,
)
    ensures
        ({
            let f = FrameView::DataPacked { seq, sample_rate: rate, pga, base_tick, packed };
            let t = session_after(s, f, peer, now).0;
            &&& is_ragged(f) <==> forall|k: int| #![trigger 6 * k] packed.len() != 6 * k
            &&& is_ragged(f) ==> {
                &&& t.status is Disconnected
                &&& t.pending_pga is None && t.pending_rate is None
                &&& t.live_buf == s.live_buf && t.rec_buf == s.rec_buf
                &&& t.recordings == s.recordings && t.recording == s.recording
                &&& t.total_samples == s.total_samples && t.cmd_queue == s.cmd_queue
                &&& t.sample_rate == s.sample_rate && t.pga == s.pga
            }
        }),
{
    let n = packed.len() as int;
    assert(n == 6 * (n / 6) + n % 6);
    if n % 6 == 0 {
        assert(n == 6 * (n / 6));
    }
    assert forall|k: int| #![trigger 6 * k] n == 6 * k implies n % 6 == 0 by {}
}

/// Time is counted from one moment to a later one.
pub proof fn law_elapsed_time(since: u64, d: u64)
    requires
        since + d <= u64::MAX,
    ensures
        elapsed(since, (since + d) as u64) == d,
        d > 0 ==> elapsed((since + d) as u64, since) == 0,
{
}

/// The counters of a connection count every edge, every batch with its samples, and every
/// packet that was lost; a batch that is refused is not counted, and nothing is lost before
/// the first one.
pub proof fn law_frames_are_counted(c: Connection, f: FrameView)
    requires
        c.has_room(sample_count(f) as int),
    ensures
        ({
            let (d, e) = (c.diag, c.diag_after(f));
            &&& e.started_at == d.started_at && e.last_print_at == d.last_print_at
            &&& e.last_repaint_at == d.last_repaint_at
            &&& f is Keyphasor ==> e.keyphasors == d.keyphasors + 1 && e.packets == d.packets
                && e.samples == d.samples && e.seq_gaps == d.seq_gaps
            &&& !(f is Keyphasor) ==> e.keyphasors == d.keyphasors
            &&& !(f is Keyphasor) && c.expected_seq is None ==> e.seq_gaps == d.seq_gaps
            &&& f matches FrameView::Data { seq, samples, .. } ==> {
                &&& e.packets == d.packets + 1 && e.samples == d.samples + samples.len()
                &&& c.expected_seq matches Some(x) ==> (x + e.seq_gaps - d.seq_gaps - seq.0)
                    % 0x1_0000_0000 == 0
            }
            &&& f matches FrameView::DataPacked { seq, packed, .. } ==> {
                &&& packed.len() % 6 == 0 ==> e.packets == d.packets + 1 && 6 * (e.samples
                    - d.samples) == packed.len()
                &&& packed.len() % 6 != 0 ==> e.packets == d.packets && e.samples == d.samples
                &&& c.expected_seq matches Some(x) ==> (x + e.seq_gaps - d.seq_gaps - seq.0)
                    % 0x1_0000_0000 == 0
            }
        }),
{
}

/// An automatic recording is idle once no edge has come for more than two seconds, and only
/// then; one by hand never is.
pub proof fn law_idle_after_two_seconds(s: SessionView, now: u64)
    ensures
        s.auto_idle(now) <==> s.recording && s.auto_rec_last_kp_at is Some && now
            - s.auto_rec_last_kp_at->0 > 2_000_000_000,
{
}

/// What is said of a recording that a batch ends is what becomes of it: it is said to be kept
/// if and only if there is a recording more.
pub proof fn law_idle_end_is_told(s: SessionView, f: FrameView, peer: Seq<char>, now: u64)
    ensures
        ({
            let t = session_after(s, f, peer, now).0;
            let told = idle_end(s, f, now);
            &&& f is Keyphasor || is_ragged(f) ==> told is None
            &&& !(f is Keyphasor) ==> {
                &&& told is Some <==> s.recording && !t.recording
                &&& told == Some(true) <==> t.recordings.len() == s.recordings.len() + 1
                &&& told != Some(true) ==> t.recordings == s.recordings
            }
        }),
{
}

/// A lost connection forgets what was on its way and tells why; everything that was received,
/// kept or wanted stays.
pub proof fn law_lost_connection_keeps_the_data(s: SessionView, why: Seq<char>)
    ensures
        ({
            let t = s.disconnected(why);
            &&& t.status == ConnStatusView::Disconnected(why)
            &&& t.pending_pga is None && t.pending_rate is None && t.pending_rate_since is None
            &&& t == SessionView {
                status: t.status,
                pending_pga: t.pending_pga,
                pending_rate: t.pending_rate,
                pending_rate_since: t.pending_rate_since,
                ..s
            }
        }),
{
}

/// A keyphasor edge that the front end sends reaches the session with its tick.
pub proof fn law_edge_reaches_session(s: SessionView, e: KpEvent, peer: Seq<char>, now: u64)
    ensures
        ({
            let f = edge_frame(e);
            &&& read_frame(frame_bytes(f)) == Some(f)
            &&& session_after(s, f, peer, now).0 == s.with_tick(e.tick, now).after_edge(now)
            &&& session_after(s, f, peer, now).0.kp_ticks.last() == e.tick
        }),
{
    let f = edge_frame(e);
    law_frame_read_back(f, seq![]);
    assert(frame_bytes(f) + Seq::<u8>::empty() =~= frame_bytes(f));
}

/// Every frame keeps what holds of every session.
pub proof fn law_frames_keep_session(s: SessionView, f: FrameView, peer: Seq<char>, now: u64)
    requires
        s.wf(),
    ensures
        session_after(s, f, peer, now).0.wf(),
{
    match f {
        FrameView::Data { seq, sample_rate, pga, .. } => {
            lemma_stream_keeps_session(s, seq, sample_rate, pga, now);
        },
        FrameView::DataPacked { seq, sample_rate, pga, .. } => {
            lemma_stream_keeps_session(s, seq, sample_rate, pga, now);
        },
        FrameView::Keyphasor { .. } => {},
    }
}

proof fn lemma_stream_keeps_session(
    s: SessionView,
    seq: PacketSeq,
    rate: SampleRateHz,
    pga: u8,
    now: u64,
)
    requires
        s.wf(),
    ensures
        s.with_stream(seq, rate, pga, now).wf(),
{
    let live = if s.sample_rate != rate && s.sample_rate.0 != 0 {
        seq![]
    } else {
        s.live_buf
    };
    let t = (SessionView { live_buf: live, sample_rate: rate, pga, ..s }).with_packet(rate);
    law_last_command_wins(t.without_pending_rate(), Command::SetDataRate(t.desired_rate));
}

/// An automatic recording that no edge has come for in over two seconds ends with
/// the next batch; the trigger is armed again if and only if the user wants that.
pub proof fn law_idle_recording_ends(
    s: SessionView,
    n: PacketSeq,
    rate: SampleRateHz,
    pga: u8,
    samples: Seq<Sample>,
    now: u64,
)
    requires
        s.auto_idle(now),
    ensures
        ({
            let t = s.with_batch(n, rate, pga, samples, now);
            &&& !t.recording
            &&& t.auto_rec_armed == s.auto_rec_plus
            &&& t.auto_rec_last_kp_at is None
            &&& t.recordings.len() == s.recordings.len() + if s.with_stream(
                n,
                rate,
                pga,
                now,
            ).with_samples(samples).rec_buf.len() > 0 {
                1int
            } else {
                0
            }
        }),
{
}

} // verus!
