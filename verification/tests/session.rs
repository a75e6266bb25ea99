use vibrometer::panel::{
    current_view_samples, pga_option, rate_option, view_data, Panel, RecordControls,
};
use vibrometer::chart::ChartState;
use vibrometer::comments::Comments;
use vibrometer::protocol::{Command, FrameOwned, KpEvent, PackedPacketOwned, PacketOwned, Sample};
use vibrometer::receiver::{apply_batch, apply_edge, payload_len, Connection, SessionDiag};
use vibrometer::session::{
    auto_trigger_check, finish_recording, process_keyphasor, process_recording_sample,
    push_revolution, ConnStatus, RecordMode, Recording, RevMeasurement, Selection, Shared,
    LIVE_BUF_SIZE, RATE_RETRY_AFTER, REV_TREND_SIZE,
};
use vibrometer::types::{AdcCount, PacketSeq, SampleRateHz};

const SECOND: u64 = 1_000_000_000;

fn sample(ch0: i32, ch1: i32, keyphasor: bool) -> Sample {
    Sample {
        ch0: AdcCount(ch0),
        ch1: AdcCount(ch1),
        flags: if keyphasor { Sample::KEYPHASOR_FLAG } else { 0 },
        tick: 0,
    }
}

fn at(tick: u64) -> Sample {
    Sample { ch0: AdcCount(1), ch1: AdcCount(0), flags: 0, tick }
}

fn recording(name: &str, samples: usize) -> Recording {
    Recording {
        samples: (0..samples as u64).map(at).collect(),
        sample_rate: SampleRateHz(2000),
        pga: 4,
        kp_ticks: vec![3, 9],
        filename: name.to_string(),
        selection: None,
    }
}

#[test]
fn continuous_recording_appends_samples_until_stop() {
    let mut shared = Shared::new();
    shared.recording = true;
    shared.record_mode = RecordMode::Continuous;

    process_recording_sample(&mut shared, sample(1, 2, false));
    process_recording_sample(&mut shared, sample(3, 4, true));

    assert_eq!(shared.rec_buf.len(), 2);
    assert!(shared.recording);
}

#[test]
fn revolution_recording_waits_for_keyphasor_and_stops_after_target() {
    let mut shared = Shared::new();
    shared.sample_rate = SampleRateHz(2000);
    shared.recording = true;
    shared.record_mode = RecordMode::Revolutions;
    shared.record_revs = 1;
    shared.rec_waiting_kp = true;

    process_recording_sample(&mut shared, sample(10, 20, false));
    assert!(shared.rec_buf.is_empty());
    assert!(shared.recordings.is_empty());

    process_keyphasor(&mut shared, 0);
    process_recording_sample(&mut shared, sample(11, 21, false));
    process_recording_sample(&mut shared, sample(12, 22, false));
    process_keyphasor(&mut shared, 0);

    assert!(!shared.recording);
    assert_eq!(shared.recordings.len(), 1);
    assert_eq!(shared.recordings[0].sample_rate, SampleRateHz(2000));
    assert_eq!(shared.recordings[0].samples.len(), 2);
}

#[test]
fn enqueue_command_replaces_pending_pga() {
    let mut shared = Shared::new();
    shared.enqueue_command(Command::SetPga(1));
    shared.enqueue_command(Command::SetPga(4));
    shared.enqueue_command(Command::SetPga(8));

    assert_eq!(shared.cmd_queue.len(), 1);
    assert!(matches!(shared.cmd_queue[0], Command::SetPga(8)));
}

#[test]
fn enqueue_command_keeps_one_pending_command_per_type() {
    let mut shared = Shared::new();
    shared.enqueue_command(Command::SetPga(2));
    shared.enqueue_command(Command::SetDataRate(SampleRateHz(2000)));
    shared.enqueue_command(Command::SetPga(4));
    shared.enqueue_command(Command::SetDataRate(SampleRateHz(7500)));

    assert_eq!(shared.cmd_queue.len(), 2);
    assert!(matches!(shared.cmd_queue[0], Command::SetPga(4)));
    assert!(matches!(
        shared.cmd_queue[1],
        Command::SetDataRate(SampleRateHz(7500))
    ));
}

#[test]
fn note_stream_packet_clears_pending_rate_on_ack() {
    let mut shared = Shared::new();
    shared.mark_command_sent(Command::SetDataRate(SampleRateHz(7500)), 0);

    shared.note_stream_packet(SampleRateHz(7500));

    assert_eq!(shared.pending_rate, None);
    assert_eq!(shared.pending_rate_since, None);
}

#[test]
fn retry_stuck_rate_change_requeues_desired_rate() {
    let mut shared = Shared::new();
    shared.sample_rate = SampleRateHz(2000);
    shared.desired_rate = SampleRateHz(500);
    shared.mark_command_sent(Command::SetDataRate(SampleRateHz(500)), 0);

    shared.retry_stuck_rate_change(SampleRateHz(2000), SECOND);

    assert_eq!(shared.pending_rate, None);
    assert_eq!(shared.pending_rate_since, None);
    assert!(matches!(
        shared.cmd_queue.as_slice(),
        [Command::SetDataRate(SampleRateHz(500))]
    ));
}

#[test]
fn rate_change_is_not_asked_for_again_too_early() {
    let mut shared = Shared::new();
    shared.sample_rate = SampleRateHz(2000);
    shared.desired_rate = SampleRateHz(500);
    shared.mark_command_sent(Command::SetDataRate(SampleRateHz(500)), 100);
    shared.retry_stuck_rate_change(SampleRateHz(2000), 100 + RATE_RETRY_AFTER - 1);
    assert_eq!(shared.pending_rate, Some(SampleRateHz(500)));
    assert!(shared.cmd_queue.is_empty());
    shared.retry_stuck_rate_change(SampleRateHz(500), 100 + RATE_RETRY_AFTER);
    assert!(shared.cmd_queue.is_empty());
    shared.retry_stuck_rate_change(SampleRateHz(2000), 100 + RATE_RETRY_AFTER);
    assert_eq!(shared.cmd_queue.len(), 1);
}

#[test]
fn commands_that_ask_nothing_new_are_dropped() {
    let mut shared = Shared::new();
    shared.sample_rate = SampleRateHz(1000);
    shared.enqueue_command(Command::SetDataRate(SampleRateHz(1000)));
    assert!(shared.cmd_queue.is_empty());
    shared.mark_command_sent(Command::SetPga(8), 0);
    shared.enqueue_command(Command::SetPga(8));
    assert!(shared.cmd_queue.is_empty());
    shared.clear_pending_commands();
    shared.enqueue_command(Command::SetPga(8));
    assert_eq!(shared.cmd_queue, vec![Command::SetPga(8)]);
    assert_eq!(shared.take_commands(), vec![Command::SetPga(8)]);
    assert!(shared.cmd_queue.is_empty());
}

/// The trigger by its formulas in floating point.
fn trigger_in_floats(ticks: &[u64]) -> bool {
    if ticks.len() < 4 {
        return false;
    }
    let recent = &ticks[ticks.len() - 4..];
    let periods: Vec<u64> = recent.windows(2).map(|w| w[1] - w[0]).collect();
    if periods.iter().any(|&p| p < 16_000) {
        return false;
    }
    let mean = periods.iter().sum::<u64>() as f64 / 3.0;
    if 60.0 * 16_000_000.0 / mean < 300.0 {
        return false;
    }
    let variance = periods.iter().map(|&p| (p as f64 - mean).powi(2)).sum::<f64>() / 3.0;
    variance.sqrt() / mean <= 0.2
}

#[test]
fn trigger_agrees_with_its_formulas() {
    let mut state: u64 = 12345;
    let mut hits: usize = 0;
    for _ in 0..20_000 {
        let mut ticks: Vec<u64> = vec![1_000];
        for _ in 0..3 {
            state = state.wrapping_mul(6364136223846793005).wrapping_add(1442695040888963407);
            let p: u64 = 10_000 + (state >> 33) % 2_000_000;
            ticks.push(ticks.last().unwrap() + p);
        }
        let want = trigger_in_floats(&ticks);
        assert_eq!(auto_trigger_check(&ticks), want, "{:?}", ticks);
        if want {
            hits += 1;
        }
    }
    assert!(hits > 100);
}

#[test]
fn trigger_limits() {
    // 300 rpm exactly: 3 200 000 ticks a revolution.
    assert!(auto_trigger_check(&[0, 3_200_000, 6_400_000, 9_600_000]));
    assert!(!auto_trigger_check(&[0, 3_200_000, 6_400_000, 9_600_001]));
    assert!(auto_trigger_check(&[5, 16_005, 32_005, 48_005]));
    assert!(!auto_trigger_check(&[5, 16_004, 32_005, 48_005]));
    assert!(!auto_trigger_check(&[0, 100_000, 200_000]));
    // Only the last three revolutions count.
    assert!(auto_trigger_check(&[0, 1, 100_001, 200_001, 300_001]));
    assert!(!auto_trigger_check(&[0, 100_000, 200_000, 400_000]));
}

fn armed_with(ticks: &[u64], live: &[u64]) -> Shared {
    let mut shared = Shared::new();
    shared.sample_rate = SampleRateHz(2000);
    shared.press_auto_plus();
    for &t in live {
        shared.live_buf.push_back(at(t));
    }
    for &t in ticks {
        shared.kp_ticks.push(t);
    }
    shared
}

#[test]
fn trigger_records_its_window() {
    let mut shared =
        armed_with(&[0, 50_000, 150_000, 250_000], &[10, 49_999, 50_000, 120_000, 300_000]);
    let r = apply_edge(&mut shared, KpEvent { tick: 350_000 }, 7);
    assert!(r.started);
    assert!(shared.recording);
    assert!(!shared.auto_rec_armed);
    assert_eq!(shared.rec_kp_ticks, vec![50_000, 150_000, 250_000, 350_000]);
    let ticks: Vec<u64> = shared.rec_buf.iter().map(|s| s.tick).collect();
    assert_eq!(ticks, vec![50_000, 120_000, 300_000]);
    assert_eq!(shared.auto_rec_last_kp_at, Some(7));
    assert_eq!(shared.recording_label(), " [auto+]");
}

#[test]
fn automatic_recording_ends_without_edges_and_is_armed_again() {
    let mut shared = armed_with(&[0, 100_000, 200_000], &[]);
    let r = apply_edge(&mut shared, KpEvent { tick: 300_000 }, SECOND);
    assert!(r.started);
    let batch = vec![at(310_000), at(320_000)];
    let rate = SampleRateHz(2000);
    assert_eq!(apply_batch(&mut shared, PacketSeq(1), rate, 1, &batch, 3 * SECOND), None);
    assert!(shared.recording);
    // An edge puts the end off.
    apply_edge(&mut shared, KpEvent { tick: 400_000 }, 3 * SECOND);
    assert_eq!(apply_batch(&mut shared, PacketSeq(2), rate, 1, &batch, 5 * SECOND), None);
    assert_eq!(apply_batch(&mut shared, PacketSeq(3), rate, 1, &batch, 5 * SECOND + 1), Some(true));
    assert!(!shared.recording);
    assert!(shared.auto_rec_armed);
    assert_eq!(shared.recordings.len(), 1);
    assert_eq!(shared.recordings[0].samples.len(), 6);
    assert_eq!(shared.recordings[0].kp_ticks, vec![0, 100_000, 200_000, 300_000, 400_000]);
}

#[test]
fn stopped_recording_is_the_last() {
    let mut shared = armed_with(&[0, 100_000, 200_000], &[150_000]);
    apply_edge(&mut shared, KpEvent { tick: 300_000 }, 0);
    assert!(shared.press_stop());
    assert!(!shared.auto_rec_armed);
    assert!(!shared.auto_rec_plus);
    assert_eq!(shared.record_controls(), RecordControls::Start);
    shared.press_auto();
    assert_eq!(shared.record_controls(), RecordControls::Cancel);
    shared.press_cancel();
    shared.press_record();
    assert_eq!(shared.record_controls(), RecordControls::Stop);
    assert_eq!(shared.recording_label(), "");
    // Nothing in it: nothing is kept.
    assert!(!finish_recording(&mut shared));
    assert_eq!(shared.recordings.len(), 1);
}

#[test]
fn recording_goes_on_for_the_revolutions_wanted() {
    for revs in [0usize, 1, 3] {
        let mut shared = Shared::new();
        shared.recording = true;
        shared.record_mode = RecordMode::Revolutions;
        shared.record_revs = revs;
        shared.rec_waiting_kp = true;
        for k in 0..revs.max(1) {
            assert_eq!(process_keyphasor(&mut shared, k as u64).finished, None);
            assert!(shared.recording);
        }
        assert_eq!(process_keyphasor(&mut shared, 9).finished, Some(false));
        assert!(!shared.recording);
    }
}

#[test]
fn revolution_samples_go_into_the_trend() {
    let mut shared = Shared::new();
    shared.sample_rate = SampleRateHz(1000);
    for t in 0..31 {
        shared.rev_buf.push(at(t));
    }
    assert!(process_keyphasor(&mut shared, 0).revolution.is_none());
    assert_eq!(shared.rev_buf.len(), 31);
    shared.rev_buf.push(at(31));
    let r = process_keyphasor(&mut shared, 0).revolution.unwrap();
    assert_eq!(r.len(), 32);
    assert!(shared.rev_buf.is_empty());
    for k in 0..REV_TREND_SIZE as u64 + 5 {
        let m = RevMeasurement {
            ch0_amplitude: k,
            ch0_phase: 0,
            ch1_amplitude: 0,
            ch1_phase: 0,
            rpm: 0,
        };
        push_revolution(&mut shared, m);
    }
    assert_eq!(shared.rev_trend.len(), REV_TREND_SIZE);
    assert_eq!(shared.rev_trend[0].ch0_amplitude, 5);
}

#[test]
fn live_buffer_keeps_the_last_samples() {
    let mut shared = Shared::new();
    let rate = SampleRateHz(7500);
    let batch: Vec<Sample> = (0..LIVE_BUF_SIZE as u64 + 10).map(at).collect();
    apply_batch(&mut shared, PacketSeq(1), rate, 2, &batch, 0);
    assert_eq!(shared.live_buf.len(), LIVE_BUF_SIZE);
    assert_eq!(shared.live_buf[0].tick, 10);
    assert_eq!(shared.total_samples, LIVE_BUF_SIZE as u64 + 10);
    assert_eq!(shared.pga, 2);
    // Another rate makes it worthless.
    apply_batch(&mut shared, PacketSeq(2), SampleRateHz(500), 2, &vec![at(1)], 0);
    assert_eq!(shared.live_buf.len(), 1);
}

fn data(seq: u32, n: u64) -> FrameOwned {
    FrameOwned::Data(PacketOwned {
        seq: PacketSeq(seq),
        sample_rate: SampleRateHz(2000),
        pga: 1,
        samples: (0..n).map(at).collect(),
    })
}

#[test]
fn lost_packets_are_counted() {
    let mut shared = Shared::new();
    let mut c = Connection::new(0);
    assert_eq!(c.handle_frame(&mut shared, data(5, 1), "p", 0).lost, 0);
    assert_eq!(c.handle_frame(&mut shared, data(6, 1), "p", 0).lost, 0);
    assert_eq!(c.handle_frame(&mut shared, data(10, 1), "p", 0).lost, 3);
    assert_eq!(c.diag.seq_gaps, 3);
    let mut w = Connection::new(0);
    assert_eq!(w.handle_frame(&mut shared, data(u32::MAX, 1), "p", 0).lost, 0);
    assert_eq!(w.handle_frame(&mut shared, data(0, 1), "p", 0).lost, 0);
    assert_eq!(w.handle_frame(&mut shared, data(3, 1), "p", 0).lost, 2);
}

#[test]
fn frames_reach_the_session() {
    let mut shared = Shared::new();
    shared.enqueue_command(Command::SetPga(16));
    let mut c = Connection::new(0);
    let r = c.handle_frame(&mut shared, data(1, 3), "10.0.0.7:555", 42);
    assert_eq!(r.commands, vec![Command::SetPga(16)]);
    assert!(!r.disconnect);
    assert_eq!(shared.live_buf.len(), 3);
    assert_eq!(shared.last_packet_at, Some(42));
    let packed = FrameOwned::DataPacked(PackedPacketOwned {
        seq: PacketSeq(2),
        sample_rate: SampleRateHz(2000),
        pga: 1,
        base_tick: 1000,
        samples: vec![0xFF, 0xFF, 0xFE, 0x02, 0x00, 0x05],
    });
    c.handle_frame(&mut shared, packed, "10.0.0.7:555", 43);
    let last = shared.live_buf[3];
    assert_eq!(last.ch0, AdcCount(-2));
    assert!(last.keyphasor_level());
    assert_eq!(last.tick, 1005);
    let edge = FrameOwned::Keyphasor(KpEvent { tick: 77 });
    let r = c.handle_frame(&mut shared, edge, "10.0.0.7:555", 44);
    assert!(r.edge.is_some());
    assert_eq!(shared.kp_ticks, vec![77]);
    assert_eq!(shared.keyphasor_count, 1);
    assert_eq!(shared.kp_last_total, 4);
    let ragged = FrameOwned::DataPacked(PackedPacketOwned {
        seq: PacketSeq(3),
        sample_rate: SampleRateHz(2000),
        pga: 1,
        base_tick: 0,
        samples: vec![0; 7],
    });
    let r = c.handle_frame(&mut shared, ragged, "10.0.0.7:555", 45);
    assert!(r.disconnect);
    assert_eq!(shared.connection_text(), "✕ 10.0.0.7:555: invalid packed payload len=7");
}

#[test]
fn payloads_beyond_the_limit_are_refused() {
    assert_eq!(payload_len(&[0, 0, 0, 9]), Some(9));
    assert_eq!(payload_len(&[0, 0, 0x46, 0x90]), Some(18_064));
    assert_eq!(payload_len(&[0, 0, 0x46, 0x91]), None);
    assert_eq!(payload_len(&[1, 0, 0, 0]), None);
}

#[test]
fn diagnostics_are_reported_once_a_second() {
    let mut d = SessionDiag::new(100);
    d.note_packet(20);
    d.note_packet(5);
    d.note_keyphasor();
    d.note_seq_gap(4);
    assert!(d.report(100 + SECOND - 1).is_none());
    let r = d.report(100 + SECOND).unwrap();
    assert_eq!((r.packets, r.samples, r.keyphasors, r.seq_gaps), (2, 25, 1, 4));
    assert_eq!(r.elapsed, SECOND);
    assert_eq!((d.packets, d.samples, d.keyphasors, d.seq_gaps), (0, 0, 0, 4));
    assert!(!d.repaint_due(100 + 32_999_999));
    assert!(d.repaint_due(100 + 33_000_000));
    assert!(!d.repaint_due(100 + 33_000_001));
}

#[test]
fn connecting_asks_for_what_the_user_wants() {
    let mut shared = Shared::new();
    assert_eq!(shared.initial_commands(), vec![Command::SetPga(1)]);
    shared.request_pga(3);
    shared.request_rate(2);
    assert_eq!(
        shared.initial_commands(),
        vec![Command::SetPga(8), Command::SetDataRate(SampleRateHz(7500))]
    );
    shared.disconnect("gone".to_string());
    assert!(matches!(shared.status, ConnStatus::Disconnected(_)));
    assert_eq!(pga_option(6), 64);
    assert_eq!(rate_option(0), SampleRateHz(30000));
    assert_eq!(rate_option(14), SampleRateHz(5));
}

#[test]
fn status_lines() {
    let mut shared = Shared::new();
    assert_eq!(shared.connection_text(), "⏳ Listening on :7100");
    shared.status = ConnStatus::Connected("1.2.3.4:5".to_string());
    assert_eq!(shared.connection_text(), "● Connected: 1.2.3.4:5");
    assert_eq!(
        shared.status_text(0),
        "rate: 0Hz | samples: 0 | kp: 0 | seq: 0 | stream: no packets yet"
    );
    apply_batch(&mut shared, PacketSeq(9), SampleRateHz(500), 1, &vec![at(0)], SECOND);
    assert_eq!(
        shared.status_text(SECOND + 499_999_999),
        "rate: 500Hz | samples: 1 | kp: 0 | seq: 9 | stream: live (499 ms)"
    );
    assert_eq!(
        shared.status_text(SECOND + 500_000_000),
        "rate: 500Hz | samples: 1 | kp: 0 | seq: 9 | stream: stale (500 ms)"
    );
}

#[test]
fn view_shows_live_or_a_recording() {
    let mut shared = Shared::new();
    assert!(view_data(&shared, None).is_none());
    apply_batch(&mut shared, PacketSeq(1), SampleRateHz(1000), 2, &vec![at(4), at(6)], 0);
    let live = view_data(&shared, None).unwrap();
    assert_eq!((live.start_tick(), live.end_tick()), (4, 6));
    shared.recordings.push(recording("000.parquet", 10));
    let rec = view_data(&shared, Some(0)).unwrap();
    assert_eq!(rec.samples.len(), 10);
    assert_eq!(rec.kp_ticks, vec![3, 9]);
    assert!(view_data(&shared, Some(1)).is_none());
    let (part, rate, pga) = current_view_samples(&shared, Some(0), Some((2, 50))).unwrap();
    assert_eq!((part.len(), part[0].tick, rate, pga), (8, 2, SampleRateHz(2000), 4));
    let (whole, _, _) = current_view_samples(&shared, Some(0), Some((5, 5))).unwrap();
    assert_eq!(whole.len(), 10);
    shared.press_record();
    process_recording_sample(&mut shared, at(99));
    assert_eq!(view_data(&shared, None).unwrap().samples.len(), 1);
}

#[test]
fn selections_survive_switching() {
    let mut shared = Shared::new();
    let loaded = vec![recording("000.parquet", 3), recording("001.parquet", 3)];
    let mut comments = Comments::new();
    comments.insert("001.parquet".to_string(), "second".to_string());
    let mut panel = Panel::open(&mut shared, loaded, comments);
    assert_eq!(panel.view_recording, Some(1));
    assert_eq!(panel.editing_comment, "second");
    assert_eq!(shared.desired_rate, SampleRateHz(2000));
    panel.refresh_list(&shared);
    let range = Selection { t_from: 1f64.to_bits(), t_to: 2f64.to_bits() };
    panel.chart.selection = Some(range);
    assert_eq!(panel.pick(&mut shared, 0), Some(1));
    assert_eq!(shared.recordings[1].selection, Some(range));
    assert_eq!(panel.chart.selection, None);
    assert_eq!(panel.pick(&mut shared, 1), None);
    assert_eq!(panel.chart.selection, Some(range));
    panel.pick_live(&mut shared);
    assert_eq!(panel.view_recording, None);
    assert_eq!(panel.chart.selection, None);
    let labels: Vec<&str> = panel.rec_list.iter().map(|e| e.label.as_str()).collect();
    assert_eq!(labels, vec!["000", "001"]);
    let fresh = ChartState::new();
    assert_eq!(fresh.selection, None);
}

#[test]
fn last_recording_gets_its_name() {
    let mut shared = Shared::new();
    shared.press_record();
    process_recording_sample(&mut shared, at(1));
    assert!(finish_recording(&mut shared));
    shared.name_last_recording("007.parquet".to_string());
    assert_eq!(shared.recordings[0].filename, "007.parquet");
    assert_eq!((shared.recordings[0].start_tick(), shared.recordings[0].end_tick()), (1, 1));
}

#[test]
fn comment_is_kept_on_the_recording_on_view() {
    let mut shared = Shared::new();
    let loaded = vec![recording("000.parquet", 3)];
    let mut panel = Panel::open(&mut shared, loaded, Comments::new());
    panel.editing_comment = "loose foot".to_string();
    assert!(!panel.commit_comment());
    panel.refresh_list(&shared);
    assert!(panel.commit_comment());
    assert_eq!(panel.comments.get(&"000.parquet".to_string()), "loose foot");
    panel.editing_comment = "  \n".to_string();
    assert!(panel.commit_comment());
    assert_eq!(panel.comments.entries().len(), 0);
    panel.pick_live(&mut shared);
    assert!(!panel.commit_comment());
}

#[test]
fn live_view_follows_a_recording() {
    let mut shared = Shared::new();
    let mut panel = Panel::open(&mut shared, Vec::new(), Comments::new());
    assert!(!panel.follows_end(&shared));
    shared.press_record();
    assert!(panel.follows_end(&shared));
    panel.chart.auto_follow_x = false;
    assert!(!panel.follows_end(&shared));
    panel.chart.auto_follow_x = true;
    panel.view_recording = Some(0);
    assert!(!panel.follows_end(&shared));
}

#[test]
fn command_for_what_is_in_force_takes_back_the_one_before() {
    let mut s = Shared::new();
    s.sample_rate = SampleRateHz(2000);
    s.enqueue_command(Command::SetPga(4));
    s.enqueue_command(Command::SetDataRate(SampleRateHz(7500)));
    s.enqueue_command(Command::SetDataRate(SampleRateHz(2000)));
    assert_eq!(s.cmd_queue, vec![Command::SetPga(4)]);
    s.mark_command_sent(Command::SetPga(8), 0);
    s.enqueue_command(Command::SetPga(8));
    assert!(s.cmd_queue.is_empty());
}

#[test]
fn selections_are_compared_as_numbers() {
    let mut shared = Shared::new();
    let loaded = vec![recording("000.parquet", 3)];
    let mut panel = Panel::open(&mut shared, loaded, Comments::new());
    let range = |from: f64, to: f64| Some(Selection { t_from: from.to_bits(), t_to: to.to_bits() });
    panel.chart.selection = range(0.0, 2.0);
    assert_eq!(panel.flush_selection(&mut shared), Some(0));
    assert_eq!(panel.flush_selection(&mut shared), None);
    panel.chart.selection = range(-0.0, 2.0);
    assert_eq!(panel.flush_selection(&mut shared), None);
    assert_eq!(shared.recordings[0].selection, range(0.0, 2.0));
    panel.chart.selection = range(0.0, f64::NAN);
    assert_eq!(panel.flush_selection(&mut shared), Some(0));
    assert_eq!(panel.flush_selection(&mut shared), Some(0));
    panel.chart.selection = None;
    assert_eq!(panel.flush_selection(&mut shared), Some(0));
    assert_eq!(panel.flush_selection(&mut shared), None);
}
