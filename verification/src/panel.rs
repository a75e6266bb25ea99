//! The control panel: what its buttons do to the session, which recording is on
//! view, and what the view shows.

use crate::ads1256::{is_gain, rate_code};
use crate::chart::ChartState;
use crate::comments::Comments;
use crate::protocol::{Command, Sample};
use crate::ranking::{equal_numbers, same_number};
use crate::receiver::elapsed;
use crate::session::{
    finish_recording, law_new_wish_is_queued, recording_views, ConnStatus, ConnStatusView,
    RecordMode, Recording, RecordingView, Selection, SessionView, Shared,
};
use crate::store::{display_name, file_name_of, law_listed_by_its_stem, listed_as};
use crate::text::{append_decimal, decimal, decimal3};
use crate::types::{PacketSeq, SampleRateHz};
use vstd::prelude::*;

verus! {

/// Number of gains to choose from.
pub const PGA_OPTIONS: usize = 7;

/// Number of rates to choose from.
pub const DATA_RATE_OPTIONS: usize = 15;

/// The rate that is chosen at first.
pub const DEFAULT_RATE_OPTION: usize = 4;

/// A packet older than this is stale, in milliseconds.
pub const STALE_AFTER_MS: u64 = 500;

// ---------------------------------------------------------------------------
// Converter settings
// ---------------------------------------------------------------------------

/// The gains to choose from, in order.
pub open spec fn pga_choice(i: int) -> u8 {
    if i == 0 {
        1
    } else if i == 1 {
        2
    } else if i == 2 {
        4
    } else if i == 3 {
        8
    } else if i == 4 {
        16
    } else if i == 5 {
        32
    } else {
        64
    }
}

/// The gain with a number in the list.
pub fn pga_option(i: usize) -> (r: u8)
    requires
        i < PGA_OPTIONS,
    ensures
        r == pga_choice(i as int),
{
    match i {
        0 => 1,
        1 => 2,
        2 => 4,
        3 => 8,
        4 => 16,
        5 => 32,
        _ => 64,
    }
}

/// The rates to choose from, in order.
pub open spec fn rate_choice(i: int) -> u16 {
    if i == 0 {
        30000
    } else if i == 1 {
        15000
    } else if i == 2 {
        7500
    } else if i == 3 {
        3750
    } else if i == 4 {
        2000
    } else if i == 5 {
        1000
    } else if i == 6 {
        500
    } else if i == 7 {
        100
    } else if i == 8 {
        60
    } else if i == 9 {
        50
    } else if i == 10 {
        30
    } else if i == 11 {
        25
    } else if i == 12 {
        15
    } else if i == 13 {
        10
    } else {
        5
    }
}

/// The rate with a number in the list.
pub fn rate_option(i: usize) -> (r: SampleRateHz)
    requires
        i < DATA_RATE_OPTIONS,
    ensures
        r == SampleRateHz(rate_choice(i as int)),
{
    let sps: u16 = match i {
        0 => 30000,
        1 => 15000,
        2 => 7500,
        3 => 3750,
        4 => 2000,
        5 => 1000,
        6 => 500,
        7 => 100,
        8 => 60,
        9 => 50,
        10 => 30,
        11 => 25,
        12 => 15,
        13 => 10,
        _ => 5,
    };
    SampleRateHz(sps)
}

/// The converter has every gain and every rate that can be chosen, and every gain
/// and rate that it has can be chosen.
pub proof fn law_options_are_the_converters(pga: u8, sps: u16)
    ensures
        is_gain(pga) <==> exists|i: int| 0 <= i < PGA_OPTIONS && #[trigger] pga_choice(i) == pga,
        rate_code(sps) is Some <==> exists|i: int|
            0 <= i < DATA_RATE_OPTIONS && #[trigger] rate_choice(i) == sps,
{
    assert(pga_choice(0) == 1 && pga_choice(1) == 2 && pga_choice(2) == 4 && pga_choice(3) == 8
        && pga_choice(4) == 16 && pga_choice(5) == 32 && pga_choice(6) == 64);
    assert(rate_choice(0) == 30000 && rate_choice(1) == 15000 && rate_choice(2) == 7500
        && rate_choice(3) == 3750 && rate_choice(4) == 2000 && rate_choice(5) == 1000
        && rate_choice(6) == 500 && rate_choice(7) == 100 && rate_choice(8) == 60 && rate_choice(9)
        == 50 && rate_choice(10) == 30 && rate_choice(11) == 25 && rate_choice(12) == 15
        && rate_choice(13) == 10 && rate_choice(14) == 5);
}

/// The gains in the list are the powers of two from 1 on, and the rates go down.
pub proof fn law_options_in_order(i: int, j: int)
    ensures
        pga_choice(0) == 1,
        0 <= i < 6 ==> pga_choice(i + 1) == 2 * pga_choice(i),
        0 <= i < j < 15 ==> rate_choice(i) > rate_choice(j),
        rate_choice(DEFAULT_RATE_OPTION as int) == 2000,
{
}

impl SessionView {
    /// The session after the user asked for a gain.
    pub open spec fn with_wanted_pga(self, pga: u8) -> SessionView {
        (SessionView { desired_pga: pga, ..self }).with_command(Command::SetPga(pga))
    }

    /// The session after the user asked for a rate.
    pub open spec fn with_wanted_rate(self, rate: SampleRateHz) -> SessionView {
        (SessionView { desired_rate: rate, ..self }).with_command(Command::SetDataRate(rate))
    }

    /// The session after the user started a recording.
    pub open spec fn with_manual_recording(self) -> SessionView {
        SessionView {
            recording: true,
            record_mode: RecordMode::Continuous,
            rec_buf: seq![],
            rec_captured_revs: 0,
            rec_waiting_kp: false,
            ..self
        }
    }

    /// The session after the user armed the trigger, once or for good.
    pub open spec fn armed(self, plus: bool) -> SessionView {
        SessionView { auto_rec_armed: true, auto_rec_plus: plus, ..self }
    }
}

/// What the record section of the panel offers.
#[derive(Debug, Clone, Copy, PartialEq, Eq, Structural)]
pub enum RecordControls {
    /// A recording is under way: it can be stopped.
    Stop,
    /// The trigger is armed: it can be cancelled.
    Cancel,
    /// A recording can be started or the trigger armed.
    Start,
}

impl Shared {
    /// What the record section of the panel offers.
    pub fn record_controls(&self) -> (r: RecordControls)
        ensures
            r == if self@.recording {
                RecordControls::Stop
            } else if self@.auto_rec_armed {
                RecordControls::Cancel
            } else {
                RecordControls::Start
            },
    {
        if self.recording {
            RecordControls::Stop
        } else if self.auto_rec_armed {
            RecordControls::Cancel
        } else {
            RecordControls::Start
        }
    }

    /// What is said of how the recording under way came about.
    pub fn recording_label(&self) -> (r: &'static str)
        ensures
            r@ == if self@.auto_rec_plus {
                " [auto+]"@
            } else if self@.auto_rec_last_kp_at is Some {
                " [auto]"@
            } else {
                ""@
            },
    {
        if self.auto_rec_plus {
            " [auto+]"
        } else if self.auto_rec_last_kp_at.is_some() {
            " [auto]"
        } else {
            ""
        }
    }

    /// Stops the recording, and the arming after it. Returns whether it was kept.
    pub fn press_stop(&mut self) -> (kept: bool)
        requires
            old(self)@.wf(),
        ensures
            final(self)@.wf(),
            final(self)@ == (SessionView { auto_rec_plus: false, ..old(self)@ }).finished(),
            kept == (old(self)@.rec_buf.len() > 0),
    {
        self.auto_rec_plus = false;
        finish_recording(self)
    }

    /// Disarms the trigger.
    pub fn press_cancel(&mut self)
        ensures
            final(self)@ == (SessionView {
                auto_rec_armed: false,
                auto_rec_plus: false,
                ..old(self)@
            }),
    {
        self.auto_rec_armed = false;
        self.auto_rec_plus = false;
    }

    /// Starts a recording.
    pub fn press_record(&mut self)
        ensures
            final(self)@ == old(self)@.with_manual_recording(),
    {
        self.recording = true;
        self.record_mode = RecordMode::Continuous;
        self.rec_buf.clear();
        self.rec_captured_revs = 0;
        self.rec_waiting_kp = false;
        assert(self@ =~= old(self)@.with_manual_recording());
    }

    /// Arms the trigger for one recording.
    pub fn press_auto(&mut self)
        ensures
            final(self)@ == old(self)@.armed(false),
    {
        self.auto_rec_armed = true;
        self.auto_rec_plus = false;
    }

    /// Arms the trigger for one recording after another.
    pub fn press_auto_plus(&mut self)
        ensures
            final(self)@ == old(self)@.armed(true),
    {
        self.auto_rec_armed = true;
        self.auto_rec_plus = true;
    }

    /// Asks for the gain with a number in the list.
    pub fn request_pga(&mut self, option: usize)
        requires
            old(self)@.wf(),
            option < PGA_OPTIONS,
        ensures
            final(self)@.wf(),
            final(self)@ == old(self)@.with_wanted_pga(pga_choice(option as int)),
    {
        let pga: u8 = pga_option(option);
        self.desired_pga = pga;
        self.enqueue_command(Command::SetPga(pga));
    }

    /// Asks for the rate with a number in the list.
    pub fn request_rate(&mut self, option: usize)
        requires
            old(self)@.wf(),
            option < DATA_RATE_OPTIONS,
        ensures
            final(self)@.wf(),
            final(self)@ == old(self)@.with_wanted_rate(SampleRateHz(rate_choice(option as int))),
    {
        let rate: SampleRateHz = rate_option(option);
        self.desired_rate = rate;
        self.enqueue_command(Command::SetDataRate(rate));
    }
}

/// What the user asks for is what the user wants from then on, and it is on its way to the
/// front end unless it is already; the other setting, the stream and the recordings stay.
pub proof fn law_wishes_are_kept(s: SessionView, pga: u8, rate: SampleRateHz)
    requires
        s.wf(),
    ensures
        ({
            let g = s.with_wanted_pga(pga);
            let r = s.with_wanted_rate(rate);
            &&& g.desired_pga == pga && g.desired_rate == s.desired_rate
            &&& r.desired_rate == rate && r.desired_pga == s.desired_pga
            &&& g.cmd_queue.contains(Command::SetPga(pga)) || g.pending_pga == Some(pga)
            &&& r.cmd_queue.contains(Command::SetDataRate(rate)) || r.pending_rate == Some(rate)
                || r.sample_rate == rate
            &&& g.recordings == s.recordings && r.recordings == s.recordings
            &&& g.recording == s.recording && r.recording == s.recording
            &&& g.same_stream(s) && r.same_stream(s)
        }),
{
    law_new_wish_is_queued(SessionView { desired_pga: pga, ..s }, pga, rate);
    law_new_wish_is_queued(SessionView { desired_rate: rate, ..s }, pga, rate);
}

/// Arming and starting a recording touch nothing that was received or kept.
pub proof fn law_controls_keep_the_data(s: SessionView, plus: bool)
    ensures
        s.armed(plus).auto_rec_armed && s.armed(plus).auto_rec_plus == plus,
        s.armed(plus).same_stream(s) && s.with_manual_recording().same_stream(s),
        s.armed(plus).recordings == s.recordings && s.with_manual_recording().recordings
            == s.recordings,
        s.armed(plus).recording == s.recording && s.armed(plus).rec_buf == s.rec_buf,
        s.with_manual_recording().rec_buf.len() == 0,
        s.with_manual_recording().keeps_samples(),
        s.with_manual_recording().record_mode == RecordMode::Continuous,
        s.with_manual_recording().rec_captured_revs == 0,
        !s.with_manual_recording().rec_waiting_kp,
        s.with_manual_recording().auto_rec_armed == s.auto_rec_armed,
{
}

/// A recording by hand holds what comes in between the start and the stop, all of it and in
/// order, and is kept with the rate and the gain of the last batch; it is not armed again.
pub proof fn law_recording_by_hand(
    s: SessionView,
    first: Seq<Sample>,
    second: Seq<Sample>,
    rate: SampleRateHz,
    pga: u8,
    numbers: (PacketSeq, PacketSeq),
    times: (u64, u64),
)
    requires
        s.auto_rec_last_kp_at is None,
        first.len() + second.len() > 0,
    ensures
        ({
            let a = s.with_manual_recording().with_batch(numbers.0, rate, pga, first, times.0);
            let b = a.with_batch(numbers.1, rate, pga, second, times.1);
            let r = (SessionView { auto_rec_plus: false, ..b }).finished();
            &&& s.with_manual_recording().recording
            &&& s.with_manual_recording().recordings == s.recordings
            &&& b.recording
            &&& r.recordings.len() == s.recordings.len() + 1
            &&& r.recordings.last().samples == first + second
            &&& r.recordings.last().sample_rate == rate
            &&& r.recordings.last().pga == pga
            &&& !r.recording && !r.auto_rec_armed
        }),
{
    let a = s.with_manual_recording().with_batch(numbers.0, rate, pga, first, times.0);
    let b = a.with_batch(numbers.1, rate, pga, second, times.1);
    assert(Seq::<Sample>::empty() + first =~= first);
    assert(b.rec_buf =~= first + second);
}

/// Armed for good, the trigger is armed again after every recording until the user
/// stops one; a recording that the user stops is the last.
pub proof fn law_auto_plus_cycles(s: SessionView, now: u64)
    ensures
        s.armed(true).triggered(now).finished().auto_rec_armed,
        s.armed(true).triggered(now).finished().auto_rec_plus,
        !s.armed(false).triggered(now).finished().auto_rec_armed,
        !(SessionView { auto_rec_plus: false, ..s.armed(true).triggered(now) }).finished().auto_rec_armed,
{
}

// ---------------------------------------------------------------------------
// Status
// ---------------------------------------------------------------------------

/// What is said of the connection.
pub open spec fn connection_label(status: ConnStatusView) -> Seq<char> {
    match status {
        ConnStatusView::Listening => "⏳ Listening on :7100"@,
        ConnStatusView::Connected(peer) => "● Connected: "@ + peer,
        ConnStatusView::Disconnected(why) => "✕ "@ + why,
    }
}

/// The three things that are said of the connection: the port that is listened on, the peer, or
/// why there is none.
pub proof fn law_connection_is_told(text: Seq<char>)
    ensures
        connection_label(ConnStatusView::Listening) == "⏳ Listening on :7100"@,
        connection_label(ConnStatusView::Connected(text)).skip(
            connection_label(ConnStatusView::Connected(seq![])).len() as int,
        ) == text,
        connection_label(ConnStatusView::Disconnected(text)).skip(
            connection_label(ConnStatusView::Disconnected(seq![])).len() as int,
        ) == text,
        connection_label(ConnStatusView::Connected(text)) != connection_label(
            ConnStatusView::Disconnected(text),
        ),
{
    reveal_strlit("● Connected: ");
    reveal_strlit("✕ ");
    assert(connection_label(ConnStatusView::Connected(text)).skip(13) =~= text);
    assert(connection_label(ConnStatusView::Disconnected(text)).skip(2) =~= text);
    assert(connection_label(ConnStatusView::Connected(text))[0] == '●');
    assert(connection_label(ConnStatusView::Disconnected(text))[0] == '✕');
}

/// Milliseconds since the last packet.
pub open spec fn packet_age_ms(at: u64, now: u64) -> u64 {
    (elapsed(at, now) / 1_000_000) as u64
}

/// What is said of the stream.
pub open spec fn stream_label(last_packet_at: Option<u64>, now: u64) -> Seq<char> {
    match last_packet_at {
        None => "stream: no packets yet"@,
        Some(at) => {
            let age = packet_age_ms(at, now);
            let head = if age < STALE_AFTER_MS {
                "stream: live ("@
            } else {
                "stream: stale ("@
            };
            head + decimal(age as nat) + " ms)"@
        },
    }
}

/// The age of a packet is in whole milliseconds, and a packet is stale from half a second on.
pub proof fn law_stale_after_half_a_second(at: u64, now: u64)
    ensures
        ({
            let age = packet_age_ms(at, now);
            &&& now >= at ==> 1_000_000 * age <= now - at < 1_000_000 * (age + 1)
            &&& now < at ==> age == 0
            &&& now - at < 500_000_000 ==> stream_label(Some(at), now) == "stream: live ("@ + decimal(
                age as nat,
            ) + " ms)"@
            &&& now - at >= 500_000_000 ==> stream_label(Some(at), now) == "stream: stale ("@
                + decimal(age as nat) + " ms)"@
        }),
{
}

/// The line about the stream in the panel.
pub open spec fn status_label(s: SessionView, now: u64) -> Seq<char> {
    "rate: "@ + decimal(s.sample_rate.0 as nat) + "Hz | samples: "@ + decimal(
        s.total_samples as nat,
    ) + " | kp: "@ + decimal(s.keyphasor_count as nat) + " | seq: "@ + decimal(s.last_seq.0 as nat)
        + " | "@ + stream_label(s.last_packet_at, now)
}

impl Shared {
    /// What is said of the connection.
    pub fn connection_text(&self) -> (r: String)
        ensures
            r@ == connection_label(self@.status),
    {
        let mut out = String::new();
        match &self.status {
            ConnStatus::Listening => {
                out.append("⏳ Listening on :7100");
            },
            ConnStatus::Connected(peer) => {
                out.append("● Connected: ");
                out.append(peer.as_str());
            },
            ConnStatus::Disconnected(why) => {
                out.append("✕ ");
                out.append(why.as_str());
            },
        }
        assert(out@ =~= connection_label(self@.status));
        out
    }

    /// The line about the stream in the panel.
    pub fn status_text(&self, now: u64) -> (r: String)
        ensures
            r@ == status_label(self@, now),
    {
        let mut out = String::new();
        out.append("rate: ");
        append_decimal(&mut out, self.sample_rate.0 as u64);
        out.append("Hz | samples: ");
        append_decimal(&mut out, self.total_samples);
        out.append(" | kp: ");
        append_decimal(&mut out, self.keyphasor_count);
        out.append(" | seq: ");
        append_decimal(&mut out, self.last_seq.0 as u64);
        out.append(" | ");
        let ghost head = out@;
        match self.last_packet_at {
            None => {
                out.append("stream: no packets yet");
            },
            Some(at) => {
                let age: u64 = now.saturating_sub(at) / 1_000_000;
                if age < STALE_AFTER_MS {
                    out.append("stream: live (");
                } else {
                    out.append("stream: stale (");
                }
                append_decimal(&mut out, age);
                out.append(" ms)");
            },
        }
        assert(out@ =~= head + stream_label(self@.last_packet_at, now));
        assert(out@ =~= status_label(self@, now));
        out
    }
}

// ---------------------------------------------------------------------------
// The view
// ---------------------------------------------------------------------------

/// What is on view.
pub struct ViewData {
    pub samples: Vec<Sample>,
    pub sample_rate: SampleRateHz,
    pub pga: u8,
    pub kp_ticks: Vec<u64>,
}

#[verifier::ext_equal]
pub ghost struct ViewDataView {
    pub samples: Seq<Sample>,
    pub sample_rate: SampleRateHz,
    pub pga: u8,
    pub kp_ticks: Seq<u64>,
}

impl View for ViewData {
    type V = ViewDataView;

    open spec fn view(&self) -> ViewDataView {
        ViewDataView {
            samples: self.samples@,
            sample_rate: self.sample_rate,
            pga: self.pga,
            kp_ticks: self.kp_ticks@,
        }
    }
}

impl ViewData {
    /// Tick of the first sample, 0 if there is none.
    pub fn start_tick(&self) -> (r: u64)
        ensures
            r == if self@.samples.len() > 0 {
                self@.samples[0].tick
            } else {
                0
            },
    {
        if self.samples.len() > 0 {
            self.samples[0].tick
        } else {
            0
        }
    }

    /// Tick of the last sample, 0 if there is none.
    pub fn end_tick(&self) -> (r: u64)
        ensures
            r == if self@.samples.len() > 0 {
                self@.samples.last().tick
            } else {
                0
            },
    {
        if self.samples.len() > 0 {
            self.samples[self.samples.len() - 1].tick
        } else {
            0
        }
    }
}

/// What is on view: a recording, or what is live. Live means the recording under
/// way if it holds anything, else the live buffer; there is nothing live before the
/// first packet.
pub open spec fn data_on_view(s: SessionView, view: Option<usize>) -> Option<ViewDataView> {
    match view {
        None => if s.sample_rate.0 == 0 {
            None
        } else {
            Some(
                ViewDataView {
                    samples: if s.recording && s.rec_buf.len() > 0 {
                        s.rec_buf
                    } else {
                        s.live_buf
                    },
                    sample_rate: s.sample_rate,
                    pga: s.pga,
                    kp_ticks: s.kp_ticks,
                },
            )
        },
        Some(i) => if i < s.recordings.len() {
            let r = s.recordings[i as int];
            Some(
                ViewDataView {
                    samples: r.samples,
                    sample_rate: r.sample_rate,
                    pga: r.pga,
                    kp_ticks: r.kp_ticks,
                },
            )
        } else {
            None
        },
    }
}

/// What is on view of a recording is the recording, whatever goes on live; what is live shows
/// every edge that came in, and the samples of the recording under way as soon as there are
/// any.
pub proof fn law_view_shows_what_there_is(s: SessionView, i: usize)
    ensures
        data_on_view(s, Some(i)) is Some <==> i < s.recordings.len(),
        data_on_view(s, Some(i)) matches Some(d) ==> {
            let r = s.recordings[i as int];
            d.samples == r.samples && d.sample_rate == r.sample_rate && d.pga == r.pga && d.kp_ticks
                == r.kp_ticks
        },
        data_on_view(s, None) is Some <==> s.sample_rate.0 > 0,
        data_on_view(s, None) matches Some(d) ==> {
            &&& d.sample_rate == s.sample_rate && d.pga == s.pga && d.kp_ticks == s.kp_ticks
            &&& s.recording && s.rec_buf.len() > 0 ==> d.samples == s.rec_buf
            &&& !s.recording || s.rec_buf.len() == 0 ==> d.samples == s.live_buf
        },
{
}

fn copy_samples(v: &Vec<Sample>, from: usize, to: usize) -> (r: Vec<Sample>)
    requires
        from <= to <= v@.len(),
    ensures
        r@ == v@.subrange(from as int, to as int),
{
    let mut out: Vec<Sample> = Vec::new();
    for i in from..to
        invariant
            to <= v@.len(),
            from <= i,
            out@ == v@.subrange(from as int, i as int),
    {
        out.push(v[i]);
        assert(out@ =~= v@.subrange(from as int, i + 1));
    }
    out
}

fn copy_ticks(v: &Vec<u64>) -> (r: Vec<u64>)
    ensures
        r@ == v@,
{
    let mut out: Vec<u64> = Vec::new();
    for i in 0..v.len()
        invariant
            out@ == v@.take(i as int),
    {
        out.push(v[i]);
        assert(out@ =~= v@.take(i + 1));
    }
    assert(out@ =~= v@);
    out
}

fn copy_live(shared: &Shared) -> (r: Vec<Sample>)
    ensures
        r@ == shared@.live_buf,
{
    let mut out: Vec<Sample> = Vec::new();
    for i in 0..shared.live_buf.len()
        invariant
            out@ == shared.live_buf@.take(i as int),
    {
        out.push(shared.live_buf[i]);
        assert(out@ =~= shared.live_buf@.take(i + 1));
    }
    assert(out@ =~= shared.live_buf@);
    out
}

/// What is on view.
pub fn view_data(shared: &Shared, view: Option<usize>) -> (r: Option<ViewData>)
    ensures
        match r {
            Some(d) => data_on_view(shared@, view) == Some(d@),
            None => data_on_view(shared@, view) is None,
        },
{
    match view {
        None => {
            if shared.sample_rate.0 < 1 {
                return None;
            }
            let samples = if shared.recording && shared.rec_buf.len() > 0 {
                copy_samples(&shared.rec_buf, 0, shared.rec_buf.len())
            } else {
                copy_live(shared)
            };
            let d = ViewData {
                samples,
                sample_rate: shared.sample_rate,
                pga: shared.pga,
                kp_ticks: copy_ticks(&shared.kp_ticks),
            };
            assert(d@ =~= data_on_view(shared@, view)->0);
            Some(d)
        },
        Some(i) => {
            if i >= shared.recordings.len() {
                return None;
            }
            let rec = &shared.recordings[i];
            assert(shared@.recordings[i as int] == rec@);
            let d = ViewData {
                samples: copy_samples(&rec.samples, 0, rec.samples.len()),
                sample_rate: rec.sample_rate,
                pga: rec.pga,
                kp_ticks: copy_ticks(&rec.kp_ticks),
            };
            assert(d@ =~= data_on_view(shared@, view)->0);
            Some(d)
        },
    }
}

/// The samples that a measurement is made on: what is live, or a recording, or the
/// range of it from `from` up to `to` if that has any sample.
pub open spec fn samples_measured(
    s: SessionView,
    view: Option<usize>,
    range: Option<(usize, usize)>,
) -> Option<(Seq<Sample>, SampleRateHz, u8)> {
    match view {
        None => if s.sample_rate.0 == 0 {
            None
        } else {
            Some((s.live_buf, s.sample_rate, s.pga))
        },
        Some(i) => if i >= s.recordings.len() || s.recordings[i as int].sample_rate.0 == 0 {
            None
        } else {
            let r = s.recordings[i as int];
            let samples = match range {
                Some((from, to)) => {
                    let end = if to <= r.samples.len() {
                        to as int
                    } else {
                        r.samples.len() as int
                    };
                    if from < end {
                        r.samples.subrange(from as int, end)
                    } else {
                        r.samples
                    }
                },
                None => r.samples,
            };
            Some((samples, r.sample_rate, r.pga))
        },
    }
}

/// A measurement is made on a stretch of the recording: the part of the range that lies within
/// it, or all of it if there is no such part. What is live is measured as a whole.
pub proof fn law_range_is_measured(s: SessionView, i: usize, from: usize, to: usize)
    requires
        i < s.recordings.len(),
        s.recordings[i as int].sample_rate.0 > 0,
    ensures
        ({
            let all = s.recordings[i as int].samples;
            let m = samples_measured(s, Some(i), Some((from, to)));
            let (got, rate, pga) = m->0;
            &&& m is Some
            &&& rate == s.recordings[i as int].sample_rate && pga == s.recordings[i as int].pga
            &&& from < to <= all.len() ==> got.len() == to - from && forall|k: int|
                #![trigger got[k]]
                0 <= k < got.len() ==> got[k] == all[from + k]
            &&& from < all.len() < to ==> got.len() == all.len() - from && forall|k: int|
                #![trigger got[k]]
                0 <= k < got.len() ==> got[k] == all[from + k]
            &&& from >= to || from >= all.len() ==> got == all
            &&& samples_measured(s, Some(i), None) == Some((all, rate, pga))
            &&& s.sample_rate.0 > 0 ==> samples_measured(s, None, Some((from, to))) == Some(
                (s.live_buf, s.sample_rate, s.pga),
            )
        }),
{
}

/// There is nothing to measure in a recording that is not there or has no rate, nor live before
/// the first packet.
pub proof fn law_nothing_to_measure(s: SessionView, i: usize, range: Option<(usize, usize)>)
    ensures
        samples_measured(s, Some(i), range) is None <==> i >= s.recordings.len()
            || s.recordings[i as int].sample_rate.0 == 0,
        samples_measured(s, None, range) is None <==> s.sample_rate.0 == 0,
{
}

/// The samples that a measurement is made on.
pub fn current_view_samples(
    shared: &Shared,
    view: Option<usize>,
    range: Option<(usize, usize)>,
) -> (r: Option<(Vec<Sample>, SampleRateHz, u8)>)
    ensures
        match r {
            Some((samples, rate, pga)) => samples_measured(shared@, view, range) == Some(
                (samples@, rate, pga),
            ),
            None => samples_measured(shared@, view, range) is None,
        },
{
    match view {
        None => {
            if shared.sample_rate.0 < 1 {
                None
            } else {
                Some((copy_live(shared), shared.sample_rate, shared.pga))
            }
        },
        Some(i) => {
            if i >= shared.recordings.len() {
                return None;
            }
            let rec = &shared.recordings[i];
            assert(shared@.recordings[i as int] == rec@);
            if rec.sample_rate.0 < 1 {
                return None;
            }
            let n: usize = rec.samples.len();
            let (a, b): (usize, usize) = match range {
                Some((from, to)) => {
                    let end: usize = if to <= n {
                        to
                    } else {
                        n
                    };
                    if from < end {
                        (from, end)
                    } else {
                        (0, n)
                    }
                },
                None => (0, n),
            };
            assert(rec@.samples.subrange(0, n as int) =~= rec@.samples);
            Some((copy_samples(&rec.samples, a, b), rec.sample_rate, rec.pga))
        },
    }
}

// ---------------------------------------------------------------------------
// The list of recordings
// ---------------------------------------------------------------------------

/// A recording as it is listed.
pub struct ListEntry {
    pub label: String,
    pub filename: String,
}

/// Whether a list shows the recordings.
pub open spec fn lists(list: Seq<ListEntry>, recordings: Seq<RecordingView>) -> bool {
    &&& list.len() == recordings.len()
    &&& forall|i: int|
        #![trigger list[i]]
        0 <= i < list.len() ==> list[i].filename@ == recordings[i].filename && list[i].label@
            == listed_as(recordings[i].filename)
}

/// A recording in a file is listed under the number of the file, three digits wide, and one
/// that was not kept yet as new.
pub proof fn law_list_shows_the_numbers(
    list: Seq<ListEntry>,
    recordings: Seq<RecordingView>,
    i: int,
    n: nat,
)
    requires
        lists(list, recordings),
        0 <= i < recordings.len(),
    ensures
        list.len() == recordings.len(),
        list[i].filename@ == recordings[i].filename,
        recordings[i].filename == file_name_of(n) ==> list[i].label@ == decimal3(n),
        recordings[i].filename.len() == 0 ==> list[i].label@ == "new"@,
{
    law_listed_by_its_stem(seq![], n);
    if recordings[i].filename.len() == 0 {
        assert(recordings[i].filename =~= seq![]);
    }
}

fn list_recordings(shared: &Shared) -> (r: Vec<ListEntry>)
    ensures
        lists(r@, shared@.recordings),
{
    let mut out: Vec<ListEntry> = Vec::new();
    for i in 0..shared.recordings.len()
        invariant
            out@.len() == i,
            forall|j: int|
                #![trigger out@[j]]
                0 <= j < i ==> out@[j].filename@ == shared@.recordings[j].filename && out@[j].label@
                    == listed_as(shared@.recordings[j].filename),
    {
        let rec = &shared.recordings[i];
        assert(shared@.recordings[i as int] == rec@);
        out.push(
            ListEntry {
                label: display_name(rec.filename.as_str()),
                filename: rec.filename.clone(),
            },
        );
    }
    out
}

/// Whether two ranges are the same: both bounds are the same numbers.
pub open spec fn same_range(a: Selection, b: Selection) -> bool {
    same_number(a.t_from, b.t_from) && same_number(a.t_to, b.t_to)
}

/// Whether the same range is picked, or none either way.
pub open spec fn same_choice(a: Option<Selection>, b: Option<Selection>) -> bool {
    match (a, b) {
        (Some(x), Some(y)) => same_range(x, y),
        (None, None) => true,
        (_, _) => false,
    }
}

fn equal_choices(a: Option<Selection>, b: Option<Selection>) -> (r: bool)
    ensures
        r == same_choice(a, b),
{
    match (a, b) {
        (Some(x), Some(y)) => equal_numbers(x.t_from, y.t_from) && equal_numbers(x.t_to, y.t_to),
        (None, None) => true,
        (_, _) => false,
    }
}

impl SessionView {
    /// The session with another range picked in a recording.
    pub open spec fn with_selection(self, i: int, selection: Option<Selection>) -> SessionView {
        SessionView {
            recordings: self.recordings.update(
                i,
                RecordingView { selection, ..self.recordings[i] },
            ),
            ..self
        }
    }

    /// Whether the range in a recording is another one than the chart shows.
    pub open spec fn selection_differs(
        self,
        view: Option<usize>,
        selection: Option<Selection>,
    ) -> bool {
        view matches Some(i) && i < self.recordings.len() && !same_choice(
            self.recordings[i as int].selection,
            selection,
        )
    }

    /// The session with the range that the chart shows kept in the recording on view.
    pub open spec fn with_chart_selection(
        self,
        view: Option<usize>,
        selection: Option<Selection>,
    ) -> SessionView {
        if self.selection_differs(view, selection) {
            self.with_selection(view->0 as int, selection)
        } else {
            self
        }
    }

    /// The recording whose file is to be written anew when the chart's range is kept.
    pub open spec fn to_resave(
        self,
        view: Option<usize>,
        selection: Option<Selection>,
    ) -> Option<usize> {
        if self.selection_differs(view, selection)
            && self.recordings[view->0 as int].filename.len() > 0 {
            view
        } else {
            None
        }
    }

    /// The range picked in a recording.
    pub open spec fn selection_of(self, view: Option<usize>) -> Option<Selection> {
        match view {
            Some(i) => if i < self.recordings.len() {
                self.recordings[i as int].selection
            } else {
                None
            },
            None => None,
        }
    }
}

impl Shared {
    /// Gives the last recording the name of the file that it was kept in.
    pub fn name_last_recording(&mut self, filename: String)
        requires
            old(self)@.recordings.len() > 0,
        ensures
            final(self)@ == (SessionView {
                recordings: old(self)@.recordings.update(
                    old(self)@.recordings.len() - 1,
                    RecordingView { filename: filename@, ..old(self)@.recordings.last() },
                ),
                ..old(self)@
            }),
    {
        let n: usize = self.recordings.len();
        self.recordings[n - 1].filename = filename;
        assert(self@ =~= (SessionView {
            recordings: old(self)@.recordings.update(
                old(self)@.recordings.len() - 1,
                RecordingView { filename: filename@, ..old(self)@.recordings.last() },
            ),
            ..old(self)@
        }));
    }
}

/// The panel's own state.
pub struct Panel {
    /// The recording on view, `None` for live.
    pub view_recording: Option<usize>,
    pub chart: ChartState,
    pub comments: Comments,
    /// The comment being written.
    pub editing_comment: String,
    /// Recordings that there were when the panel last looked.
    pub prev_rec_count: usize,
    pub rec_list: Vec<ListEntry>,
    /// Recordings that there were when the list was made.
    pub rec_list_len: usize,
}

impl Panel {
    /// A panel over recordings that were loaded: the last one is on view, with its
    /// range and its comment, and the user wants the first gain and 2000 samples per
    /// second.
    pub fn open(shared: &mut Shared, loaded: Vec<Recording>, comments: Comments) -> (p: Panel)
        requires
            comments.wf(),
            loaded@.len() < usize::MAX,
        ensures
            final(shared)@ == (SessionView {
                recordings: recording_views(loaded@),
                desired_pga: 1,
                desired_rate: SampleRateHz(2000),
                ..old(shared)@
            }),
            p.view_recording == if loaded@.len() > 0 {
                Some((loaded@.len() - 1) as usize)
            } else {
                None
            },
            p.chart == (ChartState {
                auto_follow_x: true,
                selection: if loaded@.len() > 0 {
                    loaded@.last().selection
                } else {
                    None
                },
                selecting: false,
                sel_anchor: 0,
                cursor_t: None,
                locked_cursor_t: None,
            }),
            p.comments == comments,
            p.editing_comment@ == if loaded@.len() > 0 && comments@.dom().contains(
                loaded@.last().filename@,
            ) {
                comments@[loaded@.last().filename@]
            } else {
                seq![]
            },
            p.prev_rec_count == loaded@.len(),
            p.rec_list@.len() == 0,
            p.rec_list_len == loaded@.len() + 1,
    {
        let n: usize = loaded.len();
        let mut chart = ChartState::new();
        let mut editing_comment = String::new();
        let mut view_recording: Option<usize> = None;
        if n > 0 {
            view_recording = Some(n - 1);
            chart.selection = loaded[n - 1].selection;
            editing_comment = comments.get(&loaded[n - 1].filename);
        }
        shared.recordings = loaded;
        shared.desired_pga = pga_option(0);
        shared.desired_rate = rate_option(DEFAULT_RATE_OPTION);
        assert(shared@ =~= (SessionView {
            recordings: recording_views(loaded@),
            desired_pga: 1,
            desired_rate: SampleRateHz(2000),
            ..old(shared)@
        }));
        Panel {
            view_recording,
            chart,
            comments,
            editing_comment,
            prev_rec_count: n,
            rec_list: Vec::new(),
            rec_list_len: n + 1,
        }
    }

    /// Keeps the range that the chart shows in the recording on view. Returns the
    /// recording whose file is to be written anew.
    pub fn flush_selection(&self, shared: &mut Shared) -> (resave: Option<usize>)
        ensures
            final(shared)@ == old(shared)@.with_chart_selection(
                self.view_recording,
                self.chart.selection,
            ),
            resave == old(shared)@.to_resave(self.view_recording, self.chart.selection),
    {
        if let Some(i) = self.view_recording {
            if i < shared.recordings.len() {
                assert(shared@.recordings[i as int] == shared.recordings@[i as int]@);
                if !equal_choices(shared.recordings[i].selection, self.chart.selection) {
                    shared.recordings[i].selection = self.chart.selection;
                    assert(shared@ =~= old(shared)@.with_selection(i as int, self.chart.selection));
                    if shared.recordings[i].filename.as_str().unicode_len() > 0 {
                        return Some(i);
                    }
                }
            }
        }
        None
    }

    /// Puts another recording on view, or what is live: the range of the one before
    /// is kept, the range of the new one is shown. Returns the recording whose file is
    /// to be written anew.
    pub fn switch_recording(&mut self, shared: &mut Shared, new_idx: Option<usize>) -> (resave:
        Option<usize>)
        ensures
            final(shared)@ == old(shared)@.with_chart_selection(
                old(self).view_recording,
                old(self).chart.selection,
            ),
            resave == old(shared)@.to_resave(old(self).view_recording, old(self).chart.selection),
            *final(self) == (Panel {
                view_recording: new_idx,
                chart: ChartState {
                    selection: final(shared)@.selection_of(new_idx),
                    auto_follow_x: true,
                    ..old(self).chart
                },
                ..*old(self)
            }),
    {
        let resave = self.flush_selection(shared);
        self.view_recording = new_idx;
        let mut selection: Option<Selection> = None;
        if let Some(i) = new_idx {
            if i < shared.recordings.len() {
                assert(shared@.recordings[i as int] == shared.recordings@[i as int]@);
                selection = shared.recordings[i].selection;
            }
        }
        self.chart.selection = selection;
        self.chart.fit();
        resave
    }

    /// Looks for a new recording and puts it on view. Returns whether there is one and,
    /// if so, the recording whose file is to be written anew.
    pub fn note_recordings(&mut self, shared: &mut Shared) -> (r: Option<Option<usize>>)
        ensures
            final(self).prev_rec_count == old(shared)@.recordings.len(),
            old(shared)@.recordings.len() > old(self).prev_rec_count ==> {
                &&& r == Some(
                    old(shared)@.to_resave(old(self).view_recording, old(self).chart.selection),
                )
                &&& final(shared)@ == old(shared)@.with_chart_selection(
                    old(self).view_recording,
                    old(self).chart.selection,
                )
                &&& final(self).view_recording == Some((old(shared)@.recordings.len() - 1) as usize)
                &&& final(self).chart == (ChartState {
                    selection: final(shared)@.selection_of(final(self).view_recording),
                    auto_follow_x: true,
                    ..old(self).chart
                })
                &&& final(self).editing_comment@.len() == 0
            },
            old(shared)@.recordings.len() <= old(self).prev_rec_count ==> {
                &&& r is None
                &&& final(shared)@ == old(shared)@
                &&& final(self).view_recording == old(self).view_recording
                &&& final(self).chart == old(self).chart
                &&& final(self).editing_comment == old(self).editing_comment
            },
            final(self).comments == old(self).comments,
            final(self).rec_list == old(self).rec_list,
            final(self).rec_list_len == old(self).rec_list_len,
    {
        let count: usize = shared.recordings.len();
        let mut r: Option<Option<usize>> = None;
        if count > self.prev_rec_count {
            r = Some(self.switch_recording(shared, Some(count - 1)));
            self.editing_comment = String::new();
        }
        self.prev_rec_count = count;
        r
    }

    /// Makes the list of recordings anew if their number has changed.
    pub fn refresh_list(&mut self, shared: &Shared)
        ensures
            final(self).rec_list_len == shared@.recordings.len(),
            shared@.recordings.len() != old(self).rec_list_len ==> lists(
                final(self).rec_list@,
                shared@.recordings,
            ),
            shared@.recordings.len() == old(self).rec_list_len ==> final(self).rec_list == old(
                self,
            ).rec_list,
            final(self).view_recording == old(self).view_recording,
            final(self).chart == old(self).chart,
            final(self).comments == old(self).comments,
            final(self).editing_comment == old(self).editing_comment,
            final(self).prev_rec_count == old(self).prev_rec_count,
    {
        if shared.recordings.len() != self.rec_list_len {
            self.rec_list = list_recordings(shared);
            self.rec_list_len = shared.recordings.len();
        }
    }

    /// Puts what is live on view.
    pub fn pick_live(&mut self, shared: &mut Shared) -> (resave: Option<usize>)
        ensures
            final(shared)@ == old(shared)@.with_chart_selection(
                old(self).view_recording,
                old(self).chart.selection,
            ),
            resave == old(shared)@.to_resave(old(self).view_recording, old(self).chart.selection),
            final(self).view_recording is None,
            final(self).chart == (ChartState {
                selection: None,
                auto_follow_x: true,
                ..old(self).chart
            }),
            final(self).editing_comment@.len() == 0,
            final(self).comments == old(self).comments,
            final(self).rec_list == old(self).rec_list,
            final(self).rec_list_len == old(self).rec_list_len,
            final(self).prev_rec_count == old(self).prev_rec_count,
    {
        let resave = self.switch_recording(shared, None);
        self.editing_comment = String::new();
        resave
    }

    /// Puts a recording of the list on view, with its comment.
    pub fn pick(&mut self, shared: &mut Shared, i: usize) -> (resave: Option<usize>)
        requires
            i < old(self).rec_list@.len(),
            old(self).comments.wf(),
        ensures
            final(shared)@ == old(shared)@.with_chart_selection(
                old(self).view_recording,
                old(self).chart.selection,
            ),
            resave == old(shared)@.to_resave(old(self).view_recording, old(self).chart.selection),
            final(self).view_recording == Some(i),
            final(self).chart == (ChartState {
                selection: final(shared)@.selection_of(Some(i)),
                auto_follow_x: true,
                ..old(self).chart
            }),
            final(self).editing_comment@ == ({
                let file = old(self).rec_list@[i as int].filename@;
                if old(self).comments@.dom().contains(file) {
                    old(self).comments@[file]
                } else {
                    seq![]
                }
            }),
            final(self).comments == old(self).comments,
            final(self).rec_list == old(self).rec_list,
            final(self).rec_list_len == old(self).rec_list_len,
            final(self).prev_rec_count == old(self).prev_rec_count,
    {
        let resave = self.switch_recording(shared, Some(i));
        self.editing_comment = self.comments.get(&self.rec_list[i].filename);
        resave
    }

    /// Keeps the comment that the user has written on the recording on view. Returns
    /// whether the comments are to be saved.
    pub fn commit_comment(&mut self) -> (save: bool)
        requires
            old(self).comments.wf(),
        ensures
            final(self).comments.wf(),
            save <==> (old(self).view_recording matches Some(i) && i < old(self).rec_list@.len()),
            final(self).comments@ == if save {
                let file = old(self).rec_list@[old(self).view_recording->0 as int].filename@;
                let text = old(self).editing_comment@;
                if crate::text::trimmed(text).len() == 0 {
                    old(self).comments@.remove(file)
                } else {
                    old(self).comments@.insert(file, text)
                }
            } else {
                old(self).comments@
            },
            final(self).view_recording == old(self).view_recording,
            final(self).chart == old(self).chart,
            final(self).editing_comment == old(self).editing_comment,
            final(self).rec_list == old(self).rec_list,
            final(self).rec_list_len == old(self).rec_list_len,
            final(self).prev_rec_count == old(self).prev_rec_count,
    {
        if let Some(i) = self.view_recording {
            if i < self.rec_list.len() {
                let file = self.rec_list[i].filename.clone();
                self.comments.edit(file, &self.editing_comment);
                return true;
            }
        }
        false
    }

    /// Whether the view follows the end of the data: a recording is under way, it is
    /// on view, and the user has not moved away.
    pub fn follows_end(&self, shared: &Shared) -> (r: bool)
        ensures
            r == (shared@.recording && self.view_recording is None && self.chart.auto_follow_x),
    {
        shared.recording && self.view_recording.is_none() && self.chart.auto_follow_x
    }
}

/// Keeping the chart's range changes nothing but the range of the recording on view, which is
/// then the chart's; its file is written anew if it has one and the range is another.
pub proof fn law_only_the_range_is_kept(
    s: SessionView,
    view: Option<usize>,
    selection: Option<Selection>,
    j: int,
)
    requires
        0 <= j < s.recordings.len(),
    ensures
        ({
            let t = s.with_chart_selection(view, selection);
            let (a, b) = (s.recordings[j], t.recordings[j]);
            &&& t.recordings.len() == s.recordings.len()
            &&& t.same_stream(s) && t.same_commands(s) && t.same_trend(s)
            &&& t.recording == s.recording && t.rec_buf == s.rec_buf
            &&& b.samples == a.samples && b.sample_rate == a.sample_rate && b.pga == a.pga
            &&& b.kp_ticks == a.kp_ticks && b.filename == a.filename
            &&& view != Some(j as usize) ==> b == a
            &&& view == Some(j as usize) && j <= usize::MAX ==> {
                &&& b.selection == selection || (b == a && same_choice(a.selection, selection))
                &&& s.to_resave(view, selection) is Some <==> !same_choice(a.selection, selection)
                    && a.filename.len() > 0
            }
            &&& s.to_resave(view, selection) is Some ==> s.to_resave(view, selection) == view
        }),
{
}

/// A range is the same as itself where its bounds are numbers, being the same goes both ways,
/// and no range is the same as none.
pub proof fn law_same_choice(a: Option<Selection>, b: Option<Selection>)
    ensures
        same_choice(None, b) <==> b is None,
        same_choice(a, b) <==> same_choice(b, a),
        a is None ==> same_choice(a, a),
        a matches Some(x) ==> (same_choice(a, a) <==> same_number(x.t_from, x.t_from)
            && same_number(x.t_to, x.t_to)),
        a is Some && b is Some && same_choice(a, b) ==> same_number(a->0.t_from, b->0.t_from)
            && same_number(a->0.t_to, b->0.t_to),
        a is Some && b is Some && !same_number(a->0.t_from, b->0.t_from) ==> !same_choice(a, b),
        a is Some && b is Some && !same_number(a->0.t_to, b->0.t_to) ==> !same_choice(a, b),
{
}

/// A recording on view has the range that was picked in it; what is live has none, nor has a
/// recording that is not there.
pub proof fn law_range_of_the_view(s: SessionView, i: usize)
    ensures
        s.selection_of(None) is None,
        i < s.recordings.len() ==> s.selection_of(Some(i)) == s.recordings[i as int].selection,
        i >= s.recordings.len() ==> s.selection_of(Some(i)) is None,
        i >= s.recordings.len() ==> s.to_resave(Some(i), s.selection_of(None)) is None,
{
}

/// Switching away from a recording and back shows the range that was picked in it, or one
/// with the same numbers for bounds.
pub proof fn law_selection_survives_switching(
    s: SessionView,
    i: usize,
    j: Option<usize>,
    picked: Option<Selection>,
    other: Option<Selection>,
)
    requires
        i < s.recordings.len(),
        j != Some(i),
    ensures
        ({
            let away = s.with_chart_selection(Some(i), picked);
            let back = away.with_chart_selection(j, other);
            let shown = back.selection_of(Some(i));
            &&& away.selection_of(Some(i)) == shown
            &&& shown == picked || same_choice(shown, picked)
        }),
{
}

} // verus!
