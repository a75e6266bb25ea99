//! The receiver's session: the live buffers, the recording under way, the
//! recordings made, and the commands on their way to the front end.
//!
//! Times are nanoseconds of a monotonic clock that the caller reads.

use crate::protocol::{Command, Sample};
use crate::types::{PacketSeq, SampleRateHz};
use std::collections::VecDeque;
use vstd::prelude::*;

verus! {

/// Samples in the live buffer at most.
pub const LIVE_BUF_SIZE: usize = 8192;

/// Revolutions in the live trend at most.
pub const REV_TREND_SIZE: usize = 200;

/// Samples that a revolution has at least to enter the trend.
pub const MIN_REV_SAMPLES: usize = 32;

/// An automatic recording ends when no keyphasor edge came for longer than this.
pub const AUTO_REC_IDLE_TIMEOUT: u64 = 2_000_000_000;

/// A rate change that the stream does not show is asked for again after this.
pub const RATE_RETRY_AFTER: u64 = 750_000_000;

/// Revolutions that an automatic recording waits for.
pub const AUTO_TRIGGER_REVS: usize = 3;

/// The shortest period between two edges that is no interference, in ticks.
pub const AUTO_TRIGGER_MIN_PERIOD_TICKS: u64 = 16_000;

/// The longest that [`AUTO_TRIGGER_REVS`] revolutions may take, in ticks: 300 rpm
/// on a 16 MHz timer.
pub const AUTO_TRIGGER_MAX_SPAN_TICKS: u64 = 9_600_000;

// ---------------------------------------------------------------------------
// Parts
// ---------------------------------------------------------------------------

/// The state of the connection.
#[derive(Debug, Clone)]
pub enum ConnStatus {
    /// Waiting for the front end.
    Listening,
    /// Connected to this peer.
    Connected(String),
    /// Not connected, and why.
    Disconnected(String),
}

pub ghost enum ConnStatusView {
    Listening,
    Connected(Seq<char>),
    Disconnected(Seq<char>),
}

impl View for ConnStatus {
    type V = ConnStatusView;

    open spec fn view(&self) -> ConnStatusView {
        match self {
            ConnStatus::Listening => ConnStatusView::Listening,
            ConnStatus::Connected(peer) => ConnStatusView::Connected(peer@),
            ConnStatus::Disconnected(why) => ConnStatusView::Disconnected(why@),
        }
    }
}

/// The vibration of one revolution. The numbers are the bits of `f64` values.
#[derive(Debug, Clone, Copy, PartialEq, Eq, Structural)]
pub struct RevMeasurement {
    pub ch0_amplitude: u64,
    pub ch0_phase: u64,
    pub ch1_amplitude: u64,
    pub ch1_phase: u64,
    pub rpm: u64,
}

/// A range of a recording, in seconds. The numbers are the bits of `f64` values.
#[derive(Debug, Clone, Copy, PartialEq, Eq, Structural)]
pub struct Selection {
    pub t_from: u64,
    pub t_to: u64,
}

/// A finished recording.
#[derive(Debug, Clone)]
pub struct Recording {
    pub samples: Vec<Sample>,
    pub sample_rate: SampleRateHz,
    /// Converter gain that the samples were taken with.
    pub pga: u8,
    /// Ticks of the keyphasor edges within the recording.
    pub kp_ticks: Vec<u64>,
    /// Name of the file that holds the recording, empty if there is none.
    pub filename: String,
    /// The range that the user picked.
    pub selection: Option<Selection>,
}

#[verifier::ext_equal]
pub ghost struct RecordingView {
    pub samples: Seq<Sample>,
    pub sample_rate: SampleRateHz,
    pub pga: u8,
    pub kp_ticks: Seq<u64>,
    pub filename: Seq<char>,
    pub selection: Option<Selection>,
}

impl View for Recording {
    type V = RecordingView;

    open spec fn view(&self) -> RecordingView {
        RecordingView {
            samples: self.samples@,
            sample_rate: self.sample_rate,
            pga: self.pga,
            kp_ticks: self.kp_ticks@,
            filename: self.filename@,
            selection: self.selection,
        }
    }
}

impl Recording {
    /// Tick of the first sample, 0 if there is none.
    pub fn start_tick(&self) -> (r: u64)
        ensures
            r == if self@.samples.len() > 0 {
                self@.samples[0].tick
            } else {
                0
            },
    {
        if self.samples.len() > 0 {
            self.samples[0].tick
        } else {
            0
        }
    }

    /// Tick of the last sample, 0 if there is none.
    pub fn end_tick(&self) -> (r: u64)
        ensures
            r == if self@.samples.len() > 0 {
                self@.samples.last().tick
            } else {
                0
            },
    {
        if self.samples.len() > 0 {
            self.samples[self.samples.len() - 1].tick
        } else {
            0
        }
    }
}

/// How a recording ends.
#[derive(Debug, Clone, Copy, PartialEq, Eq, Structural)]
pub enum RecordMode {
    /// When it is stopped.
    Continuous,
    /// After a number of revolutions.
    Revolutions,
}

// ---------------------------------------------------------------------------
// The automatic trigger
// ---------------------------------------------------------------------------

/// Ticks from one edge to the next on the wrapping timer.
pub open spec fn period(from: u64, to: u64) -> int {
    if to >= from {
        to - from
    } else {
        to - from + 0x1_0000_0000_0000_0000
    }
}

/// How far `p` is from a third of `s`, three times over, squared.
#[verifier::opaque]
pub open spec fn deviation(p: int, s: int) -> int {
    (3 * p - s) * (3 * p - s)
}

/// Whether the last three revolutions are clear ones: no period too short, at
/// least 300 rpm on the whole, and a coefficient of variation of the periods of at
/// most one fifth (the variance at most a 25th of the squared mean).
pub open spec fn steady(ticks: Seq<u64>) -> bool {
    let n = ticks.len();
    let p0 = period(ticks[n - 4], ticks[n - 3]);
    let p1 = period(ticks[n - 3], ticks[n - 2]);
    let p2 = period(ticks[n - 2], ticks[n - 1]);
    let s = p0 + p1 + p2;
    &&& n >= AUTO_TRIGGER_REVS + 1
    &&& p0 >= AUTO_TRIGGER_MIN_PERIOD_TICKS
    &&& p1 >= AUTO_TRIGGER_MIN_PERIOD_TICKS
    &&& p2 >= AUTO_TRIGGER_MIN_PERIOD_TICKS
    &&& s <= AUTO_TRIGGER_MAX_SPAN_TICKS
    &&& 25 * (deviation(p0, s) + deviation(p1, s) + deviation(p2, s)) <= 3 * (s * s)
}

fn squared_deviation(p: u64, s: u64) -> (r: u64)
    requires
        p <= s <= AUTO_TRIGGER_MAX_SPAN_TICKS,
    ensures
        r == deviation(p as int, s as int),
        r <= 1_000_000_000_000_000,
{
    let d: u64 = if 3 * p >= s {
        3 * p - s
    } else {
        s - 3 * p
    };
    assert(d <= 19_200_000);
    assert(d * d <= 19_200_000 * 19_200_000) by (nonlinear_arith)
        requires
            0 <= d <= 19_200_000,
    ;
    assert(d * d == (3 * p - s) * (3 * p - s)) by (nonlinear_arith)
        requires
            d == 3 * p - s || d == s - 3 * p,
    ;
    proof {
        reveal(deviation);
    }
    d * d
}

/// Whether the last three revolutions are clear enough to start a recording.
pub fn auto_trigger_check(kp_ticks: &[u64]) -> (r: bool)
    ensures
        r == steady(kp_ticks@),
{
    let n: usize = kp_ticks.len();
    if n < AUTO_TRIGGER_REVS + 1 {
        return false;
    }
    let p0: u64 = kp_ticks[n - 3].wrapping_sub(kp_ticks[n - 4]);
    let p1: u64 = kp_ticks[n - 2].wrapping_sub(kp_ticks[n - 3]);
    let p2: u64 = kp_ticks[n - 1].wrapping_sub(kp_ticks[n - 2]);
    if p0 < AUTO_TRIGGER_MIN_PERIOD_TICKS || p1 < AUTO_TRIGGER_MIN_PERIOD_TICKS || p2
        < AUTO_TRIGGER_MIN_PERIOD_TICKS {
        return false;
    }
    if p0 > AUTO_TRIGGER_MAX_SPAN_TICKS || p1 > AUTO_TRIGGER_MAX_SPAN_TICKS || p2
        > AUTO_TRIGGER_MAX_SPAN_TICKS {
        return false;
    }
    let s: u64 = p0 + p1 + p2;
    if s > AUTO_TRIGGER_MAX_SPAN_TICKS {
        return false;
    }
    let spread: u64 = squared_deviation(p0, s) + squared_deviation(p1, s) + squared_deviation(
        p2,
        s,
    );
    assert(s * s <= 9_600_000 * 9_600_000) by (nonlinear_arith)
        requires
            0 <= s <= 9_600_000,
    ;
    25 * spread <= 3 * (s * s)
}

// ---------------------------------------------------------------------------
// The session
// ---------------------------------------------------------------------------

/// The state of the session, shared between the receiver and the user interface.
pub struct Shared {
    /// The last samples, for the live trace.
    pub live_buf: VecDeque<Sample>,
    /// Sample rate of the last packet.
    pub sample_rate: SampleRateHz,
    /// State of the connection.
    pub status: ConnStatus,
    /// Whether a recording is under way.
    pub recording: bool,
    /// How it ends.
    pub record_mode: RecordMode,
    /// Revolutions to record in [`RecordMode::Revolutions`].
    pub record_revs: usize,
    /// Whether it waits for the edge that starts it.
    pub rec_waiting_kp: bool,
    /// Revolutions that it holds.
    pub rec_captured_revs: usize,
    /// Samples that it holds.
    pub rec_buf: Vec<Sample>,
    /// Ticks of the edges that it holds.
    pub rec_kp_ticks: Vec<u64>,
    /// Finished recordings.
    pub recordings: Vec<Recording>,
    /// Samples received.
    pub total_samples: u64,
    /// Keyphasor edges received.
    pub keyphasor_count: u64,
    /// Number of the last packet.
    pub last_seq: PacketSeq,
    /// When the last packet came.
    pub last_packet_at: Option<u64>,
    /// When the last edge came.
    pub last_keyphasor_at: Option<u64>,
    /// Whether a recording starts by itself on a steady rotation.
    pub auto_rec_armed: bool,
    /// When the last edge of an automatic recording came.
    pub auto_rec_last_kp_at: Option<u64>,
    /// Whether the trigger is armed again after a recording.
    pub auto_rec_plus: bool,
    /// Commands to be sent.
    pub cmd_queue: Vec<Command>,
    /// Gain that was sent and not confirmed yet.
    pub pending_pga: Option<u8>,
    /// Rate that was sent and not confirmed yet.
    pub pending_rate: Option<SampleRateHz>,
    /// When that rate was sent.
    pub pending_rate_since: Option<u64>,
    /// Vibration of the last revolutions.
    pub rev_trend: VecDeque<RevMeasurement>,
    /// Samples of the revolution under way.
    pub rev_buf: Vec<Sample>,
    /// Ticks of all edges.
    pub kp_ticks: Vec<u64>,
    /// Samples received when the last edge came.
    pub kp_last_total: u64,
    /// Gain of the last packet.
    pub pga: u8,
    /// Gain that the user wants.
    pub desired_pga: u8,
    /// Rate that the user wants.
    pub desired_rate: SampleRateHz,
}

/// The state of the session as a value.
#[verifier::ext_equal]
pub ghost struct SessionView {
    pub live_buf: Seq<Sample>,
    pub sample_rate: SampleRateHz,
    pub status: ConnStatusView,
    pub recording: bool,
    pub record_mode: RecordMode,
    pub record_revs: usize,
    pub rec_waiting_kp: bool,
    pub rec_captured_revs: usize,
    pub rec_buf: Seq<Sample>,
    pub rec_kp_ticks: Seq<u64>,
    pub recordings: Seq<RecordingView>,
    pub total_samples: u64,
    pub keyphasor_count: u64,
    pub last_seq: PacketSeq,
    pub last_packet_at: Option<u64>,
    pub last_keyphasor_at: Option<u64>,
    pub auto_rec_armed: bool,
    pub auto_rec_last_kp_at: Option<u64>,
    pub auto_rec_plus: bool,
    pub cmd_queue: Seq<Command>,
    pub pending_pga: Option<u8>,
    pub pending_rate: Option<SampleRateHz>,
    pub pending_rate_since: Option<u64>,
    pub rev_trend: Seq<RevMeasurement>,
    pub rev_buf: Seq<Sample>,
    pub kp_ticks: Seq<u64>,
    pub kp_last_total: u64,
    pub pga: u8,
    pub desired_pga: u8,
    pub desired_rate: SampleRateHz,
}

/// The values of recordings.
pub open spec fn recording_views(r: Seq<Recording>) -> Seq<RecordingView> {
    r.map_values(|x: Recording| x@)
}

impl View for Shared {
    type V = SessionView;

    open spec fn view(&self) -> SessionView {
        SessionView {
            live_buf: self.live_buf@,
            sample_rate: self.sample_rate,
            status: self.status@,
            recording: self.recording,
            record_mode: self.record_mode,
            record_revs: self.record_revs,
            rec_waiting_kp: self.rec_waiting_kp,
            rec_captured_revs: self.rec_captured_revs,
            rec_buf: self.rec_buf@,
            rec_kp_ticks: self.rec_kp_ticks@,
            recordings: recording_views(self.recordings@),
            total_samples: self.total_samples,
            keyphasor_count: self.keyphasor_count,
            last_seq: self.last_seq,
            last_packet_at: self.last_packet_at,
            last_keyphasor_at: self.last_keyphasor_at,
            auto_rec_armed: self.auto_rec_armed,
            auto_rec_last_kp_at: self.auto_rec_last_kp_at,
            auto_rec_plus: self.auto_rec_plus,
            cmd_queue: self.cmd_queue@,
            pending_pga: self.pending_pga,
            pending_rate: self.pending_rate,
            pending_rate_since: self.pending_rate_since,
            rev_trend: self.rev_trend@,
            rev_buf: self.rev_buf@,
            kp_ticks: self.kp_ticks@,
            kp_last_total: self.kp_last_total,
            pga: self.pga,
            desired_pga: self.desired_pga,
            desired_rate: self.desired_rate,
        }
    }
}

/// Whether two commands set the same thing.
pub open spec fn same_kind(a: Command, b: Command) -> bool {
    (a is SetPga) == (b is SetPga)
}

/// Whether no two commands set the same thing.
pub open spec fn one_per_kind(q: Seq<Command>) -> bool {
    forall|i: int, j: int| 0 <= i < j < q.len() ==> !same_kind(#[trigger] q[i], #[trigger] q[j])
}

/// The place of the first command that sets the same thing as `c`, or the length
/// of the queue.
pub open spec fn place_of_kind(q: Seq<Command>, c: Command) -> int
    decreases q.len(),
{
    if q.len() == 0 {
        0
    } else if same_kind(q[0], c) {
        0
    } else {
        1 + place_of_kind(q.skip(1), c)
    }
}

/// The queue with `c` in the place of the first command that sets the same thing,
/// or at the end.
pub open spec fn queue_with(q: Seq<Command>, c: Command) -> Seq<Command> {
    let k = place_of_kind(q, c);
    if k < q.len() {
        q.update(k, c)
    } else {
        q.push(c)
    }
}

/// The queue without the commands that set the same thing as `c`.
pub open spec fn queue_without(q: Seq<Command>, c: Command) -> Seq<Command> {
    q.filter(|d: Command| !same_kind(d, c))
}

proof fn lemma_queue_without(q: Seq<Command>, c: Command)
    ensures
        forall|d: Command| #[trigger]
            queue_without(q, c).contains(d) ==> q.contains(d) && !same_kind(d, c),
        one_per_kind(q) ==> one_per_kind(queue_without(q, c)),
    decreases q.len(),
{
    reveal(Seq::filter);
    if q.len() > 0 {
        let t = q.drop_last();
        let x = q.last();
        let f = queue_without(t, c);
        let g = queue_without(q, c);
        lemma_queue_without(t, c);
        assert(q[q.len() - 1] == x);
        assert forall|d: Command| #[trigger] t.contains(d) implies q.contains(d) by {
            let i = choose|i: int| 0 <= i < t.len() && t[i] == d;
            assert(q[i] == d);
        }
        assert forall|d: Command| #[trigger] g.contains(d) implies q.contains(d) && !same_kind(
            d,
            c,
        ) by {
            let i = choose|i: int| 0 <= i < g.len() && g[i] == d;
            if i < f.len() {
                assert(f[i] == d);
                assert(f.contains(d));
            }
        }
        if one_per_kind(q) {
            assert forall|i: int, j: int| 0 <= i < j < t.len() implies !same_kind(
                #[trigger] t[i],
                #[trigger] t[j],
            ) by {
                assert(!same_kind(q[i], q[j]));
            }
            assert forall|i: int, j: int| 0 <= i < j < g.len() implies !same_kind(
                #[trigger] g[i],
                #[trigger] g[j],
            ) by {
                assert(g[i] == f[i]);
                if j < f.len() {
                    assert(g[j] == f[j]);
                } else {
                    assert(f.contains(f[i]));
                    let k = choose|k: int| 0 <= k < t.len() && t[k] == f[i];
                    assert(!same_kind(q[k], q[q.len() - 1]));
                }
            }
        }
    }
}

proof fn lemma_place_of_kind(q: Seq<Command>, c: Command)
    ensures
        0 <= place_of_kind(q, c) <= q.len(),
        place_of_kind(q, c) < q.len() ==> same_kind(q[place_of_kind(q, c)], c),
        forall|i: int| 0 <= i < place_of_kind(q, c) ==> !same_kind(#[trigger] q[i], c),
    decreases q.len(),
{
    if q.len() > 0 && !same_kind(q[0], c) {
        lemma_place_of_kind(q.skip(1), c);
        assert forall|i: int| 0 <= i < place_of_kind(q, c) implies !same_kind(
            #[trigger] q[i],
            c,
        ) by {
            if i > 0 {
                assert(q[i] == q.skip(1)[i - 1]);
            }
        }
    }
}

proof fn lemma_queue_with(q: Seq<Command>, c: Command)
    requires
        one_per_kind(q),
    ensures
        one_per_kind(queue_with(q, c)),
        queue_with(q, c).contains(c),
        forall|d: Command| #[trigger]
            queue_with(q, c).contains(d) && same_kind(d, c) ==> d == c,
{
    lemma_place_of_kind(q, c);
    let k = place_of_kind(q, c);
    let r = queue_with(q, c);
    assert(r[k] == c);
    assert forall|d: Command| #[trigger] r.contains(d) && same_kind(d, c) implies d == c by {
        let i = choose|i: int| 0 <= i < r.len() && r[i] == d;
        if i != k {
            assert(r[i] == q[i]);
        }
    }
}

/// The last command that was asked for wins: the queue then holds no other command for
/// the same setting, it holds this one unless that asks for nothing new, and it still has
/// at most one command for each setting.
pub proof fn law_last_command_wins(s: SessionView, c: Command)
    requires
        s.wf(),
    ensures
        s.with_command(c).wf(),
        forall|d: Command| #[trigger]
            s.with_command(c).cmd_queue.contains(d) && same_kind(d, c) ==> d == c,
        s.with_command(c).cmd_queue.contains(c) <==> !s.asks_nothing_new(c),
        forall|d: Command|
            !same_kind(d, c) ==> (#[trigger] s.with_command(c).cmd_queue.contains(d)
                <==> s.cmd_queue.contains(d)),
{
    lemma_queue_with(s.cmd_queue, c);
    lemma_queue_without(s.cmd_queue, c);
    assert forall|d: Command| !same_kind(d, c) implies (#[trigger] s.with_command(
        c,
    ).cmd_queue.contains(d) <==> s.cmd_queue.contains(d)) by {
        lemma_others_stay(s.cmd_queue, c, d);
    }
}

/// A command takes the place of the one before it for the same setting, and goes to the end
/// of the queue if there is none; the others stay where they are. Gains and rates are the two
/// settings there are.
pub proof fn law_command_takes_its_place(q: Seq<Command>, c: Command, k: int)
    requires
        one_per_kind(q),
        0 <= k < q.len(),
    ensures
        (q[k] is SetPga) == (c is SetPga) ==> queue_with(q, c).len() == q.len() && queue_with(
            q,
            c,
        )[k] == c,
        (q[k] is SetPga) != (c is SetPga) ==> queue_with(q, c)[k] == q[k],
        queue_with(seq![], c) == seq![c],
        q.len() <= 2,
        q.len() == 1 && (q[0] is SetPga) != (c is SetPga) ==> queue_with(q, c) == seq![q[0], c],
{
    lemma_place_of_kind(q, c);
    if q.len() > 2 {
        assert(!same_kind(q[0], q[1]) && !same_kind(q[1], q[2]) && !same_kind(q[0], q[2]));
    }
    let p = place_of_kind(q, c);
    if same_kind(q[k], c) && p < k {
        assert(!same_kind(q[p], q[k]));
    }
    assert(queue_with(seq![], c) =~= seq![c]);
    if q.len() == 1 && !same_kind(q[0], c) {
        if p == 0 {
            assert(same_kind(q[0], c));
        }
        assert(queue_with(q, c) =~= seq![q[0], c]);
    }
}

/// A session starts out with nothing received, kept or asked for, at gain 1, waiting for the
/// front end.
pub proof fn law_fresh_session()
    ensures
        ({
            let s = SessionView::empty();
            &&& s.wf()
            &&& s.status is Listening && s.last_packet_at is None && s.last_keyphasor_at is None
            &&& s.sample_rate.0 == 0 && s.pga == 1 && s.desired_pga == 1 && s.desired_rate.0 == 0
            &&& s.live_buf.len() == 0 && s.rec_buf.len() == 0 && s.rev_buf.len() == 0
            &&& s.kp_ticks.len() == 0 && s.rec_kp_ticks.len() == 0 && s.rev_trend.len() == 0
            &&& s.recordings.len() == 0 && s.cmd_queue.len() == 0
            &&& s.total_samples == 0 && s.keyphasor_count == 0
            &&& !s.recording && !s.auto_rec_armed && !s.auto_rec_plus && !s.rec_waiting_kp
            &&& s.auto_rec_last_kp_at is None
            &&& s.pending_pga is None && s.pending_rate is None && s.pending_rate_since is None
            &&& s.record_mode == RecordMode::Continuous && s.revs_wanted() == 1
        }),
{
}

proof fn lemma_others_stay(q: Seq<Command>, c: Command, d: Command)
    requires
        !same_kind(d, c),
    ensures
        queue_with(q, c).contains(d) <==> q.contains(d),
        queue_without(q, c).contains(d) <==> q.contains(d),
    decreases q.len(),
{
    lemma_place_of_kind(q, c);
    let k = place_of_kind(q, c);
    let r = queue_with(q, c);
    if q.contains(d) {
        let i = choose|i: int| 0 <= i < q.len() && q[i] == d;
        assert(r[i] == d);
    }
    if r.contains(d) {
        let i = choose|i: int| 0 <= i < r.len() && r[i] == d;
        assert(q[i] == d);
    }
    reveal(Seq::filter);
    if q.len() > 0 {
        let t = q.drop_last();
        let f = queue_without(t, c);
        let g = queue_without(q, c);
        lemma_others_stay(t, c, d);
        assert(q[q.len() - 1] == q.last());
        if q.contains(d) {
            let i = choose|i: int| 0 <= i < q.len() && q[i] == d;
            if i < t.len() {
                assert(t[i] == d);
                let j = choose|j: int| 0 <= j < f.len() && f[j] == d;
                assert(g[j] == d);
            } else {
                assert(g[f.len() as int] == d);
            }
        }
        lemma_queue_without(q, c);
    }
}

/// A wish that is neither on its way nor in force is put into the queue, whatever it is:
/// nothing is new about a gain only while that gain is on its way, and about a rate only
/// while that rate is on its way or in force.
pub proof fn law_new_wish_is_queued(s: SessionView, pga: u8, rate: SampleRateHz)
    requires
        s.wf(),
    ensures
        s.pending_pga != Some(pga) ==> s.with_command(Command::SetPga(pga)).cmd_queue.contains(
            Command::SetPga(pga),
        ),
        s.pending_rate != Some(rate) && s.sample_rate != rate ==> s.with_command(
            Command::SetDataRate(rate),
        ).cmd_queue.contains(Command::SetDataRate(rate)),
        s.with_command(Command::SetPga(pga)).pending_pga == s.pending_pga,
        s.with_command(Command::SetDataRate(rate)).pending_rate == s.pending_rate,
        s.with_command(Command::SetPga(pga)).same_stream(s),
        s.with_command(Command::SetDataRate(rate)).same_stream(s),
{
    law_last_command_wins(s, Command::SetPga(pga));
    law_last_command_wins(s, Command::SetDataRate(rate));
}

impl SessionView {
    /// What holds of every session: the live buffers keep to their sizes, and the
    /// queue holds at most one command for each setting.
    pub open spec fn wf(self) -> bool {
        &&& self.live_buf.len() <= LIVE_BUF_SIZE
        &&& self.rev_trend.len() <= REV_TREND_SIZE
        &&& one_per_kind(self.cmd_queue)
    }

    /// A session before anything has happened.
    pub open spec fn empty() -> SessionView {
        SessionView {
            live_buf: seq![],
            sample_rate: SampleRateHz(0),
            status: ConnStatusView::Listening,
            recording: false,
            record_mode: RecordMode::Continuous,
            record_revs: 1,
            rec_waiting_kp: false,
            rec_captured_revs: 0,
            rec_buf: seq![],
            rec_kp_ticks: seq![],
            recordings: seq![],
            total_samples: 0,
            keyphasor_count: 0,
            last_seq: PacketSeq(0),
            last_packet_at: None,
            last_keyphasor_at: None,
            auto_rec_armed: false,
            auto_rec_last_kp_at: None,
            auto_rec_plus: false,
            cmd_queue: seq![],
            pending_pga: None,
            pending_rate: None,
            pending_rate_since: None,
            rev_trend: seq![],
            rev_buf: seq![],
            kp_ticks: seq![],
            kp_last_total: 0,
            pga: 1,
            desired_pga: 1,
            desired_rate: SampleRateHz(0),
        }
    }

    /// Whether a command asks for nothing new: that gain is on its way, or that
    /// rate is on its way or in force.
    pub open spec fn asks_nothing_new(self, c: Command) -> bool {
        match c {
            Command::SetPga(pga) => self.pending_pga == Some(pga),
            Command::SetDataRate(rate) => self.sample_rate == rate || self.pending_rate == Some(
                rate,
            ),
        }
    }

    /// The session after a command was asked for. One that asks for nothing new is not
    /// put into the queue, but takes the place of what was asked for before all the same.
    pub open spec fn with_command(self, c: Command) -> SessionView {
        SessionView {
            cmd_queue: if self.asks_nothing_new(c) {
                queue_without(self.cmd_queue, c)
            } else {
                queue_with(self.cmd_queue, c)
            },
            ..self
        }
    }

    /// The session after a command was sent.
    pub open spec fn with_sent(self, c: Command, now: u64) -> SessionView {
        match c {
            Command::SetPga(pga) => SessionView { pending_pga: Some(pga), ..self },
            Command::SetDataRate(rate) => SessionView {
                pending_rate: Some(rate),
                pending_rate_since: Some(now),
                ..self
            },
        }
    }

    /// The session without a rate on its way.
    pub open spec fn without_pending_rate(self) -> SessionView {
        SessionView { pending_rate: None, pending_rate_since: None, ..self }
    }

    /// The session after a packet with this rate: a gain change counts as made, a
    /// rate change does if this is the rate.
    pub open spec fn with_packet(self, rate: SampleRateHz) -> SessionView {
        let s = SessionView { pending_pga: None, ..self };
        if self.pending_rate == Some(rate) {
            s.without_pending_rate()
        } else {
            s
        }
    }

    /// Whether a rate change has gone unheeded for long enough to ask again.
    pub open spec fn rate_stuck(self, rate: SampleRateHz, now: u64) -> bool {
        &&& self.pending_rate is Some
        &&& self.pending_rate_since is Some
        &&& self.pending_rate != Some(rate)
        &&& now - self.pending_rate_since->0 >= RATE_RETRY_AFTER
    }

    /// The session after a packet with this rate has shown what became of a rate
    /// change.
    pub open spec fn with_retry(self, rate: SampleRateHz, now: u64) -> SessionView {
        if self.rate_stuck(rate, now) {
            self.without_pending_rate().with_command(Command::SetDataRate(self.desired_rate))
        } else {
            self
        }
    }

    /// The recording that is under way, as it would be kept.
    pub open spec fn recording_made(self) -> RecordingView {
        RecordingView {
            samples: self.rec_buf,
            sample_rate: self.sample_rate,
            pga: self.pga,
            kp_ticks: self.rec_kp_ticks,
            filename: seq![],
            selection: None,
        }
    }

    /// The session after the recording ended: it is kept if it holds anything, and
    /// the trigger is armed again if the user wants that.
    pub open spec fn finished(self) -> SessionView {
        SessionView {
            recording: false,
            rec_waiting_kp: false,
            rec_captured_revs: 0,
            auto_rec_last_kp_at: None,
            auto_rec_armed: self.auto_rec_plus,
            rec_buf: seq![],
            rec_kp_ticks: seq![],
            recordings: if self.rec_buf.len() > 0 {
                self.recordings.push(self.recording_made())
            } else {
                self.recordings
            },
            ..self
        }
    }

    /// Tick of the first edge of the window that the trigger looks at.
    pub open spec fn trigger_tick(self) -> u64 {
        self.kp_ticks[self.kp_ticks.len() - (AUTO_TRIGGER_REVS + 1)]
    }

    /// The session after the trigger fired: a recording is under way that starts
    /// with the window that the trigger looked at.
    pub open spec fn triggered(self, now: u64) -> SessionView {
        SessionView {
            auto_rec_armed: false,
            recording: true,
            record_mode: RecordMode::Continuous,
            rec_captured_revs: 0,
            rec_waiting_kp: false,
            rec_buf: self.live_buf.filter(|s: Sample| s.tick >= self.trigger_tick()),
            rec_kp_ticks: self.kp_ticks.skip(self.kp_ticks.len() - (AUTO_TRIGGER_REVS + 1)),
            auto_rec_last_kp_at: Some(now),
            ..self
        }
    }

    /// What an edge means for an automatic recording: an armed trigger fires if the
    /// rotation is steady; a recording under way goes on.
    pub open spec fn auto_edge(self, now: u64) -> SessionView {
        if self.auto_rec_armed {
            if steady(self.kp_ticks) {
                self.triggered(now)
            } else {
                self
            }
        } else if self.recording && self.record_mode == RecordMode::Continuous
            && self.auto_rec_last_kp_at is Some {
            SessionView { auto_rec_last_kp_at: Some(now), ..self }
        } else {
            self
        }
    }

    /// Whether the samples since the last edge make up a revolution for the trend.
    pub open spec fn revolution_ready(self) -> bool {
        self.rev_buf.len() >= MIN_REV_SAMPLES && self.sample_rate.0 >= 1
    }

    /// What an edge means for the trend: the revolution is taken out.
    pub open spec fn trend_edge(self) -> SessionView {
        if self.revolution_ready() {
            SessionView { rev_buf: seq![], ..self }
        } else {
            self
        }
    }

    /// Revolutions that a recording by revolutions holds in the end.
    pub open spec fn revs_wanted(self) -> int {
        if self.record_revs >= 1 {
            self.record_revs as int
        } else {
            1
        }
    }

    /// Whether an edge completes a recording by revolutions.
    pub open spec fn edge_completes(self) -> bool {
        &&& self.recording
        &&& self.record_mode == RecordMode::Revolutions
        &&& !self.rec_waiting_kp
        &&& self.rec_captured_revs + 1 >= self.revs_wanted()
    }

    /// What an edge means for a recording by revolutions: the first one starts it,
    /// each other one is a revolution, and the last one wanted ends it.
    pub open spec fn revolution_edge(self) -> SessionView {
        if !self.recording || self.record_mode != RecordMode::Revolutions {
            self
        } else if self.rec_waiting_kp {
            SessionView { rec_waiting_kp: false, rec_buf: seq![], ..self }
        } else if self.edge_completes() {
            self.finished()
        } else {
            SessionView { rec_captured_revs: (self.rec_captured_revs + 1) as usize, ..self }
        }
    }

    /// The session after an edge.
    pub open spec fn after_edge(self, now: u64) -> SessionView {
        self.auto_edge(now).trend_edge().revolution_edge()
    }

    /// The session with one more revolution in the trend.
    pub open spec fn with_revolution(self, m: RevMeasurement) -> SessionView {
        SessionView {
            rev_trend: if self.rev_trend.len() >= REV_TREND_SIZE {
                self.rev_trend.skip(1).push(m)
            } else {
                self.rev_trend.push(m)
            },
            ..self
        }
    }

    /// Whether the stream looks the same: rate, gain, samples and edges received.
    pub open spec fn same_stream(self, other: SessionView) -> bool {
        &&& self.sample_rate == other.sample_rate
        &&& self.pga == other.pga
        &&& self.live_buf == other.live_buf
        &&& self.total_samples == other.total_samples
        &&& self.keyphasor_count == other.keyphasor_count
        &&& self.last_seq == other.last_seq
        &&& self.last_packet_at == other.last_packet_at
        &&& self.last_keyphasor_at == other.last_keyphasor_at
        &&& self.status == other.status
    }

    /// Whether the same is asked of the front end, and on its way to it.
    pub open spec fn same_commands(self, other: SessionView) -> bool {
        &&& self.cmd_queue == other.cmd_queue
        &&& self.pending_pga == other.pending_pga
        &&& self.pending_rate == other.pending_rate
        &&& self.pending_rate_since == other.pending_rate_since
        &&& self.desired_pga == other.desired_pga
        &&& self.desired_rate == other.desired_rate
    }

    /// Whether the revolutions look the same: the trend, the one under way, and the edges.
    pub open spec fn same_trend(self, other: SessionView) -> bool {
        &&& self.rev_trend == other.rev_trend
        &&& self.rev_buf == other.rev_buf
        &&& self.kp_ticks == other.kp_ticks
        &&& self.kp_last_total == other.kp_last_total
    }

    /// Whether samples go into the recording.
    pub open spec fn keeps_samples(self) -> bool {
        self.recording && (self.record_mode == RecordMode::Continuous || !self.rec_waiting_kp)
    }
}

impl Shared {
    /// A session before anything has happened.
    pub fn new() -> (r: Shared)
        ensures
            r@ == SessionView::empty(),
            r@.wf(),
    {
        let r = Shared {
            live_buf: VecDeque::with_capacity(LIVE_BUF_SIZE),
            sample_rate: SampleRateHz(0),
            status: ConnStatus::Listening,
            recording: false,
            record_mode: RecordMode::Continuous,
            record_revs: 1,
            rec_waiting_kp: false,
            rec_captured_revs: 0,
            rec_buf: Vec::new(),
            rec_kp_ticks: Vec::new(),
            recordings: Vec::new(),
            total_samples: 0,
            keyphasor_count: 0,
            last_seq: PacketSeq(0),
            last_packet_at: None,
            last_keyphasor_at: None,
            auto_rec_armed: false,
            auto_rec_last_kp_at: None,
            auto_rec_plus: false,
            cmd_queue: Vec::new(),
            pending_pga: None,
            pending_rate: None,
            pending_rate_since: None,
            rev_trend: VecDeque::with_capacity(REV_TREND_SIZE),
            rev_buf: Vec::new(),
            kp_ticks: Vec::new(),
            kp_last_total: 0,
            pga: 1,
            desired_pga: 1,
            desired_rate: SampleRateHz(0),
        };
        assert(r@ =~= SessionView::empty());
        r
    }

    fn put_in_queue(&mut self, cmd: Command)
        ensures
            final(self)@ == (SessionView {
                cmd_queue: queue_with(old(self)@.cmd_queue, cmd),
                ..old(self)@
            }),
    {
        let mut k: usize = 0;
        let n: usize = self.cmd_queue.len();
        assert(self.cmd_queue@.skip(0) =~= self.cmd_queue@);
        while k < n
            invariant
                self@ == old(self)@,
                n == self.cmd_queue@.len(),
                k <= n,
                place_of_kind(self.cmd_queue@, cmd) == k + place_of_kind(
                    self.cmd_queue@.skip(k as int),
                    cmd,
                ),
            decreases n - k,
        {
            let ghost rest = self.cmd_queue@.skip(k as int);
            assert(rest[0] == self.cmd_queue@[k as int]);
            assert(rest.skip(1) =~= self.cmd_queue@.skip(k + 1));
            let same: bool = match (self.cmd_queue[k], cmd) {
                (Command::SetPga(_), Command::SetPga(_)) => true,
                (Command::SetDataRate(_), Command::SetDataRate(_)) => true,
                _ => false,
            };
            if same {
                self.cmd_queue.set(k, cmd);
                return;
            }
            k = k + 1;
        }
        assert(self.cmd_queue@.skip(n as int).len() == 0);
        self.cmd_queue.push(cmd);
    }

    fn drop_from_queue(&mut self, cmd: Command)
        ensures
            final(self)@ == (SessionView {
                cmd_queue: queue_without(old(self)@.cmd_queue, cmd),
                ..old(self)@
            }),
    {
        let ghost all = self.cmd_queue@;
        let ghost keep = |d: Command| !same_kind(d, cmd);
        let mut kept: Vec<Command> = Vec::new();
        for i in 0..self.cmd_queue.len()
            invariant
                self@ == old(self)@,
                all == self.cmd_queue@,
                keep == (|d: Command| !same_kind(d, cmd)),
                kept@ == all.take(i as int).filter(keep),
        {
            let d: Command = self.cmd_queue[i];
            proof {
                reveal(Seq::filter);
                assert(all.take(i + 1).drop_last() =~= all.take(i as int));
            }
            let same: bool = match (d, cmd) {
                (Command::SetPga(_), Command::SetPga(_)) => true,
                (Command::SetDataRate(_), Command::SetDataRate(_)) => true,
                _ => false,
            };
            if !same {
                kept.push(d);
            }
        }
        assert(all.take(all.len() as int) =~= all);
        self.cmd_queue = kept;
        assert(self@ =~= (SessionView {
            cmd_queue: queue_without(old(self)@.cmd_queue, cmd),
            ..old(self)@
        }));
    }

    /// Asks for a command to be sent. A command for the same setting that has not
    /// been sent yet is replaced, or just taken back where there is nothing new to
    /// ask for.
    pub fn enqueue_command(&mut self, cmd: Command)
        requires
            old(self)@.wf(),
        ensures
            final(self)@.wf(),
            final(self)@ == old(self)@.with_command(cmd),
    {
        let nothing_new: bool = match cmd {
            Command::SetPga(pga) => self.pending_pga == Some(pga),
            Command::SetDataRate(rate) => self.sample_rate == rate || self.pending_rate == Some(
                rate,
            ),
        };
        proof {
            law_last_command_wins(self@, cmd);
        }
        if nothing_new {
            self.drop_from_queue(cmd);
        } else {
            self.put_in_queue(cmd);
        }
    }

    /// Takes note that a command is being sent.
    pub fn mark_command_sent(&mut self, cmd: Command, now: u64)
        ensures
            final(self)@ == old(self)@.with_sent(cmd, now),
    {
        match cmd {
            Command::SetPga(pga) => {
                self.pending_pga = Some(pga);
            },
            Command::SetDataRate(rate) => {
                self.pending_rate = Some(rate);
                self.pending_rate_since = Some(now);
            },
        }
    }

    /// Takes note that a packet with this rate came.
    pub fn note_stream_packet(&mut self, packet_rate: SampleRateHz)
        ensures
            final(self)@ == old(self)@.with_packet(packet_rate),
    {
        if self.pending_rate == Some(packet_rate) {
            self.pending_rate = None;
            self.pending_rate_since = None;
        }
        self.pending_pga = None;
    }

    /// Forgets what is on its way.
    pub fn clear_pending_commands(&mut self)
        ensures
            final(self)@ == (SessionView { pending_pga: None, ..old(self)@ }).without_pending_rate(),
    {
        self.pending_pga = None;
        self.pending_rate = None;
        self.pending_rate_since = None;
    }

    /// Asks for the rate again if the stream keeps coming with another one.
    pub fn retry_stuck_rate_change(&mut self, packet_rate: SampleRateHz, now: u64)
        requires
            old(self)@.wf(),
        ensures
            final(self)@.wf(),
            final(self)@ == old(self)@.with_retry(packet_rate, now),
    {
        if let Some(pending) = self.pending_rate {
            if let Some(sent_at) = self.pending_rate_since {
                if packet_rate != pending && now >= sent_at && now - sent_at >= RATE_RETRY_AFTER {
                    self.pending_rate = None;
                    self.pending_rate_since = None;
                    self.enqueue_command(Command::SetDataRate(self.desired_rate));
                }
            }
        }
    }
}

/// Ends the recording. Returns whether it was kept; it is then the last of the
/// recordings.
pub fn finish_recording(shared: &mut Shared) -> (kept: bool)
    requires
        old(shared)@.wf(),
    ensures
        final(shared)@.wf(),
        final(shared)@ == old(shared)@.finished(),
        kept == (old(shared)@.rec_buf.len() > 0),
{
    shared.recording = false;
    shared.rec_waiting_kp = false;
    shared.rec_captured_revs = 0;
    shared.auto_rec_last_kp_at = None;
    shared.auto_rec_armed = shared.auto_rec_plus;
    let mut samples: Vec<Sample> = Vec::new();
    std::mem::swap(&mut samples, &mut shared.rec_buf);
    let mut kp_ticks: Vec<u64> = Vec::new();
    std::mem::swap(&mut kp_ticks, &mut shared.rec_kp_ticks);
    let kept: bool = samples.len() > 0;
    if kept {
        let rec = Recording {
            samples,
            sample_rate: shared.sample_rate,
            pga: shared.pga,
            kp_ticks,
            filename: String::new(),
            selection: None,
        };
        assert(rec@ =~= old(shared)@.recording_made());
        shared.recordings.push(rec);
        assert(recording_views(shared.recordings@) =~= old(shared)@.recordings.push(rec@));
    }
    assert(shared@ =~= old(shared)@.finished());
    kept
}

/// Puts a sample into the recording, if one is under way that takes it.
pub fn process_recording_sample(shared: &mut Shared, sample: Sample)
    ensures
        final(shared)@ == if old(shared)@.keeps_samples() {
            SessionView { rec_buf: old(shared)@.rec_buf.push(sample), ..old(shared)@ }
        } else {
            old(shared)@
        },
{
    if shared.recording && (shared.record_mode == RecordMode::Continuous
        || !shared.rec_waiting_kp) {
        shared.rec_buf.push(sample);
    }
}

/// What came of a keyphasor edge.
pub struct EdgeOutcome {
    /// An automatic recording has started.
    pub started: bool,
    /// A recording by revolutions has ended; whether it was kept.
    pub finished: Option<bool>,
    /// The samples of the revolution that the edge ended, for the trend.
    pub revolution: Option<Vec<Sample>>,
}

fn start_triggered(shared: &mut Shared, now: u64)
    requires
        old(shared)@.wf(),
        old(shared)@.kp_ticks.len() >= AUTO_TRIGGER_REVS + 1,
    ensures
        final(shared)@ == old(shared)@.triggered(now),
{
    let ghost before = shared@;
    shared.auto_rec_armed = false;
    shared.recording = true;
    shared.record_mode = RecordMode::Continuous;
    shared.rec_captured_revs = 0;
    shared.rec_waiting_kp = false;
    let first: usize = shared.kp_ticks.len() - (AUTO_TRIGGER_REVS + 1);
    let start_tick: u64 = shared.kp_ticks[first];
    let mut kept: Vec<Sample> = Vec::new();
    let ghost pred = |s: Sample| s.tick >= before.trigger_tick();
    for i in 0..shared.live_buf.len()
        invariant
            shared.live_buf@ == before.live_buf,
            start_tick == before.trigger_tick(),
            pred == (|s: Sample| s.tick >= before.trigger_tick()),
            kept@ == before.live_buf.take(i as int).filter(pred),
    {
        let s: Sample = shared.live_buf[i];
        proof {
            reveal(Seq::filter);
            assert(before.live_buf.take(i + 1).drop_last() =~= before.live_buf.take(i as int));
        }
        if s.tick >= start_tick {
            kept.push(s);
        }
    }
    proof {
        reveal(Seq::filter);
        assert(before.live_buf.take(before.live_buf.len() as int) =~= before.live_buf);
    }
    shared.rec_buf = kept;
    let mut ticks: Vec<u64> = Vec::new();
    for i in first..shared.kp_ticks.len()
        invariant
            shared.kp_ticks@ == before.kp_ticks,
            first <= i <= before.kp_ticks.len(),
            ticks@ == before.kp_ticks.subrange(first as int, i as int),
    {
        ticks.push(shared.kp_ticks[i]);
        assert(ticks@ =~= before.kp_ticks.subrange(first as int, i + 1));
    }
    assert(ticks@ =~= before.kp_ticks.skip(first as int));
    shared.rec_kp_ticks = ticks;
    shared.auto_rec_last_kp_at = Some(now);
    assert(shared@ =~= before.triggered(now));
}

/// Handles a keyphasor edge whose tick has been noted.
pub fn process_keyphasor(shared: &mut Shared, now: u64) -> (r: EdgeOutcome)
    requires
        old(shared)@.wf(),
        old(shared)@.rec_captured_revs < usize::MAX,
    ensures
        final(shared)@.wf(),
        final(shared)@ == old(shared)@.after_edge(now),
        r.started == (old(shared)@.auto_rec_armed && steady(old(shared)@.kp_ticks)),
        match r.revolution {
            Some(samples) => old(shared)@.revolution_ready() && samples@ == old(shared)@.rev_buf,
            None => !old(shared)@.revolution_ready(),
        },
        r.finished == if old(shared)@.auto_edge(now).edge_completes() {
            Some(old(shared)@.rec_buf.len() > 0)
        } else {
            None
        },
{
    let ghost before = shared@;
    let mut started: bool = false;
    if shared.auto_rec_armed {
        if auto_trigger_check(shared.kp_ticks.as_slice()) {
            start_triggered(shared, now);
            started = true;
        }
    } else if shared.recording && shared.record_mode == RecordMode::Continuous
        && shared.auto_rec_last_kp_at.is_some() {
        shared.auto_rec_last_kp_at = Some(now);
    }
    assert(shared@ =~= before.auto_edge(now));
    let mut revolution: Option<Vec<Sample>> = None;
    if shared.rev_buf.len() >= MIN_REV_SAMPLES && shared.sample_rate.0 >= 1 {
        let mut samples: Vec<Sample> = Vec::new();
        std::mem::swap(&mut samples, &mut shared.rev_buf);
        revolution = Some(samples);
    }
    assert(shared@ =~= before.auto_edge(now).trend_edge());
    let mut finished: Option<bool> = None;
    if shared.recording && shared.record_mode == RecordMode::Revolutions {
        if shared.rec_waiting_kp {
            shared.rec_waiting_kp = false;
            shared.rec_buf.clear();
        } else {
            let wanted: usize = if shared.record_revs >= 1 {
                shared.record_revs
            } else {
                1
            };
            if shared.rec_captured_revs + 1 >= wanted {
                finished = Some(finish_recording(shared));
            } else {
                shared.rec_captured_revs = shared.rec_captured_revs + 1;
            }
        }
    }
    assert(shared@ =~= before.after_edge(now));
    EdgeOutcome { started, finished, revolution }
}

/// Puts the vibration of a revolution into the trend.
pub fn push_revolution(shared: &mut Shared, m: RevMeasurement)
    requires
        old(shared)@.wf(),
    ensures
        final(shared)@.wf(),
        final(shared)@ == old(shared)@.with_revolution(m),
{
    if shared.rev_trend.len() >= REV_TREND_SIZE {
        let _ = shared.rev_trend.pop_front();
        assert(shared.rev_trend@ =~= old(shared)@.rev_trend.skip(1));
    }
    shared.rev_trend.push_back(m);
    assert(shared@ =~= old(shared)@.with_revolution(m));
}

// ---------------------------------------------------------------------------
// Laws
// ---------------------------------------------------------------------------

/// A recording that the trigger starts holds the whole window that the trigger looked
/// at: the four edges, and all live samples from the first of them on, nothing before.
pub proof fn law_trigger_window_is_recorded(s: SessionView, now: u64)
    requires
        s.auto_rec_armed,
        steady(s.kp_ticks),
    ensures
        ({
            let r = s.auto_edge(now);
            let first = s.kp_ticks[s.kp_ticks.len() - 4];
            &&& r.recording && !r.auto_rec_armed
            &&& r.rec_kp_ticks.len() == 4
            &&& r.rec_kp_ticks[0] == first
            &&& r.rec_kp_ticks[3] == s.kp_ticks.last()
            &&& forall|x: Sample| #[trigger]
                r.rec_buf.contains(x) <==> s.live_buf.contains(x) && x.tick >= first
        }),
{
    let r = s.auto_edge(now);
    let first = s.kp_ticks[s.kp_ticks.len() - 4];
    let keep = |x: Sample| x.tick >= s.trigger_tick();
    assert forall|x: Sample| #[trigger]
        r.rec_buf.contains(x) <==> s.live_buf.contains(x) && x.tick >= first by {
        lemma_filter_contains(s.live_buf, keep, x);
    }
}

/// The four edges are the last ones that came, in order; of live samples in order of time the
/// recording starts with the last part, from the first sample that is not before the first of
/// these edges. The place of that sample is returned.
pub proof fn law_trigger_window_is_the_last_part(s: SessionView, now: u64) -> (k: int)
    requires
        s.auto_rec_armed,
        steady(s.kp_ticks),
        forall|i: int, j: int|
            0 <= i <= j < s.live_buf.len() ==> (#[trigger] s.live_buf[i]).tick <= (
            #[trigger] s.live_buf[j]).tick,
    ensures
        0 <= k <= s.live_buf.len(),
        s.auto_edge(now).rec_buf == s.live_buf.skip(k),
        forall|i: int|
            0 <= i < s.live_buf.len() ==> ((#[trigger] s.live_buf[i]).tick
                >= s.kp_ticks[s.kp_ticks.len() - 4] <==> i >= k),
        forall|e: int|
            #![trigger s.auto_edge(now).rec_kp_ticks[e]]
            0 <= e < 4 ==> s.auto_edge(now).rec_kp_ticks[e] == s.kp_ticks[s.kp_ticks.len() - 4 + e],
{
    let first = s.kp_ticks[s.kp_ticks.len() - 4];
    let keep = |x: Sample| x.tick >= s.trigger_tick();
    let k = lemma_filter_of_sorted(s.live_buf, first);
    assert(s.live_buf.filter(keep) =~= s.live_buf.filter(|x: Sample| x.tick >= first)) by {
        assert(keep =~= (|x: Sample| x.tick >= first));
    }
    k
}

proof fn lemma_filter_of_sorted(s: Seq<Sample>, first: u64) -> (k: int)
    requires
        forall|i: int, j: int|
            0 <= i <= j < s.len() ==> (#[trigger] s[i]).tick <= (#[trigger] s[j]).tick,
    ensures
        0 <= k <= s.len(),
        s.filter(|x: Sample| x.tick >= first) == s.skip(k),
        forall|i: int| 0 <= i < s.len() ==> ((#[trigger] s[i]).tick >= first <==> i >= k),
    decreases s.len(),
{
    reveal(Seq::filter);
    if s.len() == 0 {
        assert(s.skip(0) =~= s);
        0
    } else {
        let t = s.drop_last();
        assert forall|i: int, j: int| 0 <= i <= j < t.len() implies (#[trigger] t[i]).tick <= (
        #[trigger] t[j]).tick by {
            assert(t[i] == s[i] && t[j] == s[j]);
        }
        let k = lemma_filter_of_sorted(t, first);
        assert(forall|i: int| 0 <= i < t.len() ==> #[trigger] s[i] == t[i]);
        if s.last().tick >= first {
            assert(t.skip(k).push(s.last()) =~= s.skip(k));
            k
        } else {
            if k < t.len() {
                assert(s[k].tick <= s[s.len() - 1].tick);
                assert(t[k].tick >= first);
            }
            assert(t.skip(k) =~= s.skip(s.len() as int));
            s.len() as int
        }
    }
}

proof fn lemma_filter_contains(s: Seq<Sample>, keep: spec_fn(Sample) -> bool, x: Sample)
    ensures
        s.filter(keep).contains(x) <==> s.contains(x) && keep(x),
    decreases s.len(),
{
    reveal(Seq::filter);
    if s.len() > 0 {
        let t = s.drop_last();
        lemma_filter_contains(t, keep, x);
        assert(s.contains(x) <==> t.contains(x) || s.last() == x) by {
            if s.contains(x) {
                let i = choose|i: int| 0 <= i < s.len() && s[i] == x;
                if i < t.len() {
                    assert(t[i] == x);
                }
            }
            if t.contains(x) {
                let i = choose|i: int| 0 <= i < t.len() && t[i] == x;
                assert(s[i] == x);
            }
            assert(s[s.len() - 1] == s.last());
        }
        if keep(s.last()) {
            let f = t.filter(keep);
            assert(s.filter(keep) == f.push(s.last()));
            if f.contains(x) {
                let i = choose|i: int| 0 <= i < f.len() && f[i] == x;
                assert(f.push(s.last())[i] == x);
            }
            assert(f.push(s.last())[f.len() as int] == s.last());
            if f.push(s.last()).contains(x) {
                let i = choose|i: int|
                    0 <= i < f.push(s.last()).len() && f.push(s.last())[i] == x;
                if i < f.len() {
                    assert(f[i] == x);
                }
            }
        }
    }
}

/// A recording that ends with samples in it is kept as the last one, with the samples, the
/// rate, the gain and the edges of the session at that moment, under no name yet and with
/// no range picked; those before stay as they are. One that ends without samples leaves
/// them all as they are. Either way nothing of the recording is left over, and the rest of
/// the session is untouched.
pub proof fn law_finished_recording_is_kept(s: SessionView)
    ensures
        ({
            let r = s.finished();
            &&& s.rec_buf.len() > 0 ==> {
                &&& r.recordings.len() == s.recordings.len() + 1
                &&& r.recordings.drop_last() =~= s.recordings
                &&& r.recordings.last().samples == s.rec_buf
                &&& r.recordings.last().sample_rate == s.sample_rate
                &&& r.recordings.last().pga == s.pga
                &&& r.recordings.last().kp_ticks == s.rec_kp_ticks
                &&& r.recordings.last().filename.len() == 0
                &&& r.recordings.last().selection is None
            }
            &&& s.rec_buf.len() == 0 ==> r.recordings == s.recordings
            &&& !r.recording && !r.rec_waiting_kp && r.rec_captured_revs == 0
            &&& r.rec_buf.len() == 0 && r.rec_kp_ticks.len() == 0
            &&& r.auto_rec_last_kp_at is None
            &&& r.auto_rec_armed == s.auto_rec_plus && r.auto_rec_plus == s.auto_rec_plus
            &&& r.same_stream(s) && r.same_commands(s) && r.same_trend(s)
            &&& r.record_mode == s.record_mode && r.record_revs == s.record_revs
        }),
{
}

/// The trigger looks at the last four edges alone, and at nothing but the time between
/// them: three revolutions, none shorter than 16000 ticks, of no more than 9600000 ticks
/// together, whose periods spread by a fifth of their mean at most. The spread is stated
/// by the squares of the periods: the mean of the squares exceeds the square of the mean by
/// a 25th of the latter at most.
pub proof fn law_trigger_condition(ticks: Seq<u64>)
    ensures
        steady(ticks) <==> ticks.len() >= 4 && ({
            let n = ticks.len();
            let p = period(ticks[n - 4], ticks[n - 3]);
            let q = period(ticks[n - 3], ticks[n - 2]);
            let r = period(ticks[n - 2], ticks[n - 1]);
            &&& p >= 16_000 && q >= 16_000 && r >= 16_000
            &&& p + q + r <= 9_600_000
            &&& 75 * (p * p + q * q + r * r) <= 26 * ((p + q + r) * (p + q + r))
        }),
{
    reveal(deviation);
    if ticks.len() >= 4 {
        let n = ticks.len();
        let p = period(ticks[n - 4], ticks[n - 3]);
        let q = period(ticks[n - 3], ticks[n - 2]);
        let r = period(ticks[n - 2], ticks[n - 1]);
        let s = p + q + r;
        assert(deviation(p, s) + deviation(q, s) + deviation(r, s) == 9 * (p * p + q * q + r * r)
            - 3 * (s * s)) by (nonlinear_arith)
            requires
                deviation(p, s) == (3 * p - s) * (3 * p - s),
                deviation(q, s) == (3 * q - s) * (3 * q - s),
                deviation(r, s) == (3 * r - s) * (3 * r - s),
                s == p + q + r,
        ;
    }
}

/// The time from one edge to the next does not depend on where the timer stands: it is the
/// number of ticks that lead from the one to the other on a timer of 64 bits.
pub proof fn law_period_is_elapsed_ticks(from: u64, d: u64)
    ensures
        period(from, ((from + d) % 0x1_0000_0000_0000_0000) as u64) == d,
{
}

/// The trend holds the last revolutions, 200 at most, the newest at the end.
pub proof fn law_trend_keeps_the_last(s: SessionView, m: RevMeasurement)
    requires
        s.wf(),
    ensures
        ({
            let t = s.with_revolution(m).rev_trend;
            let all = s.rev_trend.push(m);
            &&& t.last() == m
            &&& t.len() <= 200
            &&& all.len() <= 200 ==> t.len() == all.len()
            &&& all.len() > 200 ==> t.len() == 200
            &&& forall|i: int|
                #![trigger t[i]]
                0 <= i < t.len() ==> t[i] == all[all.len() - t.len() + i]
        }),
{
}

/// What an edge does apart from the trend and the recording under way: nothing.
pub proof fn law_edge_keeps_the_stream(s: SessionView, now: u64)
    ensures
        s.after_edge(now).same_stream(s),
        s.after_edge(now).same_commands(s),
        s.after_edge(now).rev_trend == s.rev_trend,
        s.after_edge(now).kp_ticks == s.kp_ticks,
        s.after_edge(now).rev_buf == if s.rev_buf.len() >= 32 && s.sample_rate.0 >= 1 {
            seq![]
        } else {
            s.rev_buf
        },
{
}

/// An edge starts a recording only where the trigger is armed and the rotation steady, and
/// an armed trigger fires on the first edge with a steady rotation.
pub proof fn law_trigger_fires(s: SessionView, now: u64)
    requires
        !s.recording,
    ensures
        s.after_edge(now).recording <==> s.auto_rec_armed && steady(s.kp_ticks),
        s.after_edge(now).recordings == s.recordings,
{
}

/// A recording that the trigger starts is like one by hand that has just been started, but for
/// what it holds and for ending by itself; nothing that was received or kept is touched.
pub proof fn law_triggered_recording(s: SessionView, now: u64)
    ensures
        ({
            let t = s.triggered(now);
            &&& t.recording && t.record_mode == RecordMode::Continuous && t.keeps_samples()
            &&& t.rec_captured_revs == 0 && !t.rec_waiting_kp
            &&& t.auto_rec_last_kp_at == Some(now)
            &&& !t.auto_rec_armed && t.auto_rec_plus == s.auto_rec_plus
            &&& t.recordings == s.recordings && t.record_revs == s.record_revs
            &&& t.same_stream(s) && t.same_commands(s) && t.same_trend(s)
        }),
{
}

/// An edge means nothing for an automatic recording where none is under way and the trigger
/// does not fire: neither while the trigger is armed and the rotation not steady, nor for a
/// recording by hand or by revolutions.
pub proof fn law_edge_leaves_other_recordings(s: SessionView, now: u64)
    ensures
        s.auto_rec_armed && !steady(s.kp_ticks) ==> s.auto_edge(now) == s,
        !s.auto_rec_armed && !s.recording ==> s.auto_edge(now) == s,
        !s.auto_rec_armed && s.record_mode == RecordMode::Revolutions ==> s.auto_edge(now) == s,
        !s.auto_rec_armed && s.auto_rec_last_kp_at is None ==> s.auto_edge(now) == s,
        !s.recording ==> s.revolution_edge() == s,
        s.record_mode == RecordMode::Continuous ==> s.revolution_edge() == s,
{
}

/// An automatic recording goes on with every edge: the time since the last one is counted
/// anew.
pub proof fn law_edge_keeps_recording_alive(s: SessionView, now: u64)
    requires
        s.recording,
        s.record_mode == RecordMode::Continuous,
        s.auto_rec_last_kp_at is Some,
        !s.auto_rec_armed,
    ensures
        s.after_edge(now).recording,
        s.after_edge(now).auto_rec_last_kp_at == Some(now),
        s.after_edge(now).rec_buf == s.rec_buf,
        s.after_edge(now).rec_kp_ticks == s.rec_kp_ticks,
{
}

/// A gain change is on its way from when it is sent until the next packet; forgetting what
/// is on its way leaves nothing else changed.
pub proof fn law_gain_change_is_settled(s: SessionView, pga: u8, rate: SampleRateHz, now: u64)
    ensures
        ({
            let sent = s.with_sent(Command::SetPga(pga), now);
            &&& sent.pending_pga == Some(pga)
            &&& sent.pending_rate == s.pending_rate
            &&& sent.asks_nothing_new(Command::SetPga(pga))
            &&& sent.with_packet(rate).pending_pga is None
            &&& !sent.with_packet(rate).asks_nothing_new(Command::SetPga(pga))
        }),
{
}

/// A rate change is on its way from when it is sent, with the time of that.
pub proof fn law_rate_change_is_on_its_way(s: SessionView, rate: SampleRateHz, now: u64)
    ensures
        ({
            let sent = s.with_sent(Command::SetDataRate(rate), now);
            &&& sent.pending_rate == Some(rate)
            &&& sent.pending_rate_since == Some(now)
            &&& sent.pending_pga == s.pending_pga
            &&& sent.asks_nothing_new(Command::SetDataRate(rate))
            &&& sent.cmd_queue == s.cmd_queue
        }),
{
}

/// A rate change is on its way until the stream comes with the new rate. While the
/// stream keeps the old one, the change is asked for again once the time for it is up.
pub proof fn law_rate_change_is_settled(
    s: SessionView,
    rate: SampleRateHz,
    stream: SampleRateHz,
    sent: u64,
    now: u64,
)
    requires
        s.wf(),
        s.desired_rate == rate,
        s.sample_rate == stream,
    ensures
        ({
            let r = s.with_sent(Command::SetDataRate(rate), sent).with_packet(stream);
            if stream == rate {
                r.pending_rate is None && r.with_retry(stream, now) == r
            } else {
                &&& r.pending_rate == Some(rate)
                &&& now - sent < RATE_RETRY_AFTER ==> r.with_retry(stream, now) == r
                &&& now - sent >= RATE_RETRY_AFTER ==> r.with_retry(
                    stream,
                    now,
                ).cmd_queue.contains(Command::SetDataRate(rate))
            }
        }),
{
    let r = s.with_sent(Command::SetDataRate(rate), sent).with_packet(stream);
    law_last_command_wins(r.without_pending_rate(), Command::SetDataRate(rate));
}

/// A recording by revolutions is of as many as the user asked for, but of one at least.
pub proof fn law_revolutions_wanted(s: SessionView)
    ensures
        s.record_revs > 0 ==> s.revs_wanted() == s.record_revs,
        s.record_revs == 0 ==> s.revs_wanted() == 1,
{
}

/// A recording by revolutions takes no sample before its first edge, and every one from then
/// on; nothing that came before the edge is left in it.
pub proof fn law_first_edge_starts_the_recording(s: SessionView, now: u64)
    requires
        s.recording,
        s.record_mode == RecordMode::Revolutions,
        s.rec_waiting_kp,
        !s.auto_rec_armed,
    ensures
        !s.keeps_samples(),
        s.after_edge(now).keeps_samples(),
        s.after_edge(now).rec_buf.len() == 0,
        s.after_edge(now).recordings == s.recordings,
        s.after_edge(now).rec_captured_revs == s.rec_captured_revs,
{
}

/// A recording by revolutions that its last edge ends is kept with all its samples; every
/// edge before that only counts.
pub proof fn law_last_edge_keeps_the_recording(s: SessionView, now: u64)
    requires
        s.recording,
        s.record_mode == RecordMode::Revolutions,
        !s.rec_waiting_kp,
        !s.auto_rec_armed,
        s.rec_captured_revs < usize::MAX,
        s.rec_buf.len() > 0,
    ensures
        ({
            let t = s.after_edge(now);
            if s.rec_captured_revs + 1 >= s.record_revs {
                &&& !t.recording
                &&& t.recordings.len() == s.recordings.len() + 1
                &&& t.recordings.last().samples == s.rec_buf
                &&& t.recordings.last().kp_ticks == s.rec_kp_ticks
            } else {
                &&& t.recording && t.recordings == s.recordings
                &&& t.rec_buf == s.rec_buf && t.rec_captured_revs == s.rec_captured_revs + 1
            }
        }),
{
}

/// The session after edges at these times.
pub open spec fn after_edges(s: SessionView, times: Seq<u64>) -> SessionView
    decreases times.len(),
{
    if times.len() == 0 {
        s
    } else {
        after_edges(s, times.drop_last()).after_edge(times.last())
    }
}

/// A recording by revolutions that waits for its first edge goes on for as many more
/// edges as revolutions are wanted, and ends with the last of them.
pub proof fn law_recording_by_revolutions(s: SessionView, times: Seq<u64>)
    requires
        s.recording,
        s.record_mode == RecordMode::Revolutions,
        s.rec_waiting_kp,
        s.rec_captured_revs == 0,
        !s.auto_rec_armed,
        times.len() <= s.revs_wanted() + 1,
    ensures
        after_edges(s, times).recording <==> times.len() <= s.revs_wanted(),
{
    lemma_edges_counted(s, times);
}

proof fn lemma_edges_counted(s: SessionView, times: Seq<u64>)
    requires
        s.recording,
        s.record_mode == RecordMode::Revolutions,
        s.rec_waiting_kp,
        s.rec_captured_revs == 0,
        !s.auto_rec_armed,
        times.len() <= s.revs_wanted() + 1,
    ensures
        ({
            let r = after_edges(s, times);
            &&& r.record_revs == s.record_revs
            &&& times.len() <= s.revs_wanted() ==> {
                &&& r.recording
                &&& r.record_mode == RecordMode::Revolutions
                &&& !r.auto_rec_armed
                &&& r.rec_waiting_kp == (times.len() == 0)
                &&& times.len() > 0 ==> r.rec_captured_revs == times.len() - 1
            }
            &&& times.len() > s.revs_wanted() ==> !r.recording
        }),
    decreases times.len(),
{
    if times.len() > 0 {
        lemma_edges_counted(s, times.drop_last());
    }
}

} // verus!
