use vibrometer::batch::{PackedBatch, SampleBatch};
use vibrometer::capture::{stub_edge_due, Capture};
use vibrometer::link::{
    batch_next, drain_samples, unsent, CommandBuffer, Phase, StreamAction, StreamEvent, StreamLoop,
    IDLE_MS, RECONFIG_MS, RECONNECT_MS,
};
use vibrometer::packing::{
    decode_i24, decode_i24_be, encode_i24_be, pack_samples_ch0, unpack_samples_ch0,
};
use vibrometer::protocol::{
    Command, Frame, FrameOwned, KpEvent, PackedPacket, Packet, Sample, MAX_BATCH_SIZE,
};
use vibrometer::types::{AdcCount, PacketSeq, SampleRateHz};
use vibrometer::wire::{
    command_to_wire, decode_command, decode_frame, encode_command, encode_frame, frame_to_wire,
    parse_header,
};

fn sample(ch0: i32, flags: u8, tick: u64) -> Sample {
    Sample { ch0: AdcCount(ch0), ch1: AdcCount(0), flags, tick }
}

#[test]
fn commands_are_encoded_as_postcard_does() {
    for pga in [0u8, 1, 64, 127, 128, 255] {
        let bytes = encode_command(Command::SetPga(pga));
        assert_eq!(bytes, postcard::to_stdvec(&(0u32, pga)).unwrap());
        assert_eq!(decode_command(&bytes), Some(Command::SetPga(pga)));
    }
    for rate in [0u16, 5, 127, 128, 2000, 16383, 16384, 30000, 65535] {
        let bytes = encode_command(Command::SetDataRate(SampleRateHz(rate)));
        assert_eq!(bytes, postcard::to_stdvec(&(1u32, rate)).unwrap());
        assert_eq!(decode_command(&bytes), Some(Command::SetDataRate(SampleRateHz(rate))));
    }
    assert_eq!(encode_command(Command::SetDataRate(SampleRateHz(2000))), vec![1, 0xD0, 0x0F]);
}

#[test]
fn broken_commands_are_refused() {
    assert_eq!(decode_command(&[]), None);
    assert_eq!(decode_command(&[0]), None);
    assert_eq!(decode_command(&[2, 1]), None);
    assert_eq!(decode_command(&[1, 0x80]), None);
    assert_eq!(decode_command(&[1, 0xFF, 0xFF, 0x04]), None);
    assert_eq!(decode_command(&[1, 0xFF, 0xFF, 0x03]), Some(Command::SetDataRate(SampleRateHz(65535))));
    // Bytes that follow are left alone.
    assert_eq!(decode_command(&[0, 7, 99]), Some(Command::SetPga(7)));
}

#[test]
fn frames_are_encoded_as_postcard_does() {
    let samples = vec![
        Sample { ch0: AdcCount(-8_388_608), ch1: AdcCount(3), flags: 3, tick: u64::MAX },
        Sample { ch0: AdcCount(8_388_607), ch1: AdcCount(-1), flags: 0, tick: 300 },
    ];
    let frame = Frame::Data(Packet {
        seq: PacketSeq(70_000),
        sample_rate: SampleRateHz(7500),
        pga: 64,
        samples: &samples,
    });
    let plain: Vec<(i32, i32, u8, u64)> =
        samples.iter().map(|s| (s.ch0.0, s.ch1.0, s.flags, s.tick)).collect();
    let bytes = encode_frame(&frame);
    assert_eq!(bytes, postcard::to_stdvec(&(0u32, 70_000u32, 7500u16, 64u8, plain)).unwrap());
    match decode_frame(&bytes) {
        Some(FrameOwned::Data(p)) => {
            assert_eq!(p.seq, PacketSeq(70_000));
            assert_eq!(p.samples, samples);
        }
        _ => panic!("no data frame"),
    }

    let packed = vec![1u8, 2, 3, 4, 5, 6];
    let frame = Frame::DataPacked(PackedPacket {
        seq: PacketSeq(u32::MAX),
        sample_rate: SampleRateHz(30000),
        pga: 2,
        base_tick: 1 << 40,
        samples: &packed,
    });
    let bytes = encode_frame(&frame);
    assert_eq!(
        bytes,
        postcard::to_stdvec(&(1u32, u32::MAX, 30000u16, 2u8, 1u64 << 40, packed.clone())).unwrap()
    );
    match decode_frame(&bytes) {
        Some(FrameOwned::DataPacked(p)) => {
            assert_eq!(p.base_tick, 1 << 40);
            assert_eq!(p.samples, packed);
        }
        _ => panic!("no packed frame"),
    }

    let frame = Frame::Keyphasor(KpEvent { tick: 16_000_000 });
    let bytes = encode_frame(&frame);
    assert_eq!(bytes, postcard::to_stdvec(&(2u32, 16_000_000u64)).unwrap());
    assert!(matches!(
        decode_frame(&bytes),
        Some(FrameOwned::Keyphasor(KpEvent { tick: 16_000_000 }))
    ));
}

#[test]
fn broken_frames_are_refused() {
    assert!(decode_frame(&[]).is_none());
    assert!(decode_frame(&[3, 0]).is_none());
    assert!(decode_frame(&[2]).is_none());
    assert!(decode_frame(&[2, 0x80]).is_none());
    assert!(decode_frame(&[1, 1, 1, 1, 1, 6, 0, 0]).is_none());
    assert!(decode_frame(&[0, 1, 1, 1, 1, 2, 2]).is_none());
}

#[test]
fn frames_go_out_behind_their_length() {
    let wire = frame_to_wire(&Frame::Keyphasor(KpEvent { tick: 5 }));
    assert_eq!(wire, vec![0, 0, 0, 2, 2, 5]);
    assert_eq!(parse_header(&wire), 2);
    assert_eq!(command_to_wire(Command::SetPga(4)), vec![0, 0, 0, 2, 0, 4]);
    assert_eq!(parse_header(&[1, 2, 3, 4]), 0x0102_0304);
}

#[test]
fn readings_of_24_bits() {
    for value in [0, 1, -1, 255, -256, 8_388_607, -8_388_608, 0x12_3456] {
        let mut out = [0u8; 3];
        encode_i24_be(value, &mut out);
        assert_eq!(out.to_vec(), value.to_be_bytes()[1..].to_vec());
        assert_eq!(decode_i24(&out), value);
        assert_eq!(decode_i24_be(&out), value);
    }
    assert_eq!(decode_i24(&[0x7F, 0xFF, 0xFF]), 8_388_607);
    assert_eq!(decode_i24(&[0x80, 0x00, 0x00]), -8_388_608);
}

#[test]
fn packed_samples_are_unpacked() {
    let samples = vec![sample(5, 2, 1000), sample(-7, 0, 1002), sample(8_388_607, 2, 66_535)];
    let mut packed = PackedBatch::new();
    let base = pack_samples_ch0(&samples, &mut packed);
    assert_eq!(base, 1000);
    assert_eq!(packed.bytes().len(), 18);
    assert_eq!(packed.bytes()[..6].to_vec(), vec![0, 0, 5, 2, 0, 0]);
    assert_eq!(unpack_samples_ch0(packed.bytes(), base), samples);
    // Packing anew forgets what was there.
    assert_eq!(pack_samples_ch0(&samples[1..2], &mut packed), 1002);
    assert_eq!(packed.bytes().len(), 6);
}

fn queue_of<T>() -> (
    heapless::spsc::Producer<'static, T>,
    heapless::spsc::Consumer<'static, T>,
) {
    let q: &'static mut heapless::spsc::Queue<T, 512> =
        Box::leak(Box::new(heapless::spsc::Queue::new()));
    q.split()
}

#[test]
fn samples_are_drained_in_order() {
    let (mut tx, mut rx) = queue_of::<Sample>();
    for t in 0..300 {
        assert!(tx.enqueue(sample(t as i32, 0, t)).is_ok());
    }
    let mut batch = SampleBatch::new();
    drain_samples(&mut rx, &mut batch);
    assert_eq!(batch.samples().len(), MAX_BATCH_SIZE);
    assert_eq!(batch.samples()[249].tick, 249);
    let mut rest = SampleBatch::new();
    drain_samples(&mut rx, &mut rest);
    assert_eq!(rest.samples().len(), 50);
    assert_eq!(rest.samples()[0].tick, 250);
    let mut none = SampleBatch::new();
    drain_samples(&mut rx, &mut none);
    assert!(none.samples().is_empty());
    assert!(!batch_next(&mut none, None));
    assert!(batch_next(&mut none, Some(sample(1, 0, 1))));
}

#[test]
fn interrupts_fill_the_queues() {
    let (mut tx, mut rx) = queue_of::<Sample>();
    let (mut kp_tx, mut kp_rx) = queue_of::<KpEvent>();
    let mut c = Capture::new();
    c.on_interrupt(&mut tx, &mut kp_tx, Some([0xFF, 0xFF, 0xFF]), Some(true), 10);
    c.on_interrupt(&mut tx, &mut kp_tx, Some([0, 0, 1]), None, 20);
    c.on_interrupt(&mut tx, &mut kp_tx, None, Some(false), 30);
    let first = rx.dequeue().unwrap();
    assert_eq!((first.ch0, first.flags, first.tick), (AdcCount(-1), 0, 10));
    let second = rx.dequeue().unwrap();
    assert_eq!((second.ch0, second.flags, second.tick), (AdcCount(1), 2, 20));
    assert_eq!(kp_rx.dequeue(), Some(KpEvent { tick: 10 }));
    assert_eq!(kp_rx.dequeue(), None);
    let stats = c.take_stats();
    assert_eq!((stats.isr_count, stats.kp_count, stats.isr_drops, stats.kp_drops), (2, 1, 0, 0));
    assert_eq!((c.isr_count, c.kp_count), (0, 0));
    assert!(stub_edge_due(0) && !stub_edge_due(39) && stub_edge_due(40));
}

#[test]
fn full_queues_are_counted() {
    let (mut tx, _rx) = queue_of::<Sample>();
    let (mut kp_tx, _kp_rx) = queue_of::<KpEvent>();
    let mut c = Capture::new();
    for t in 0..513 {
        c.on_interrupt(&mut tx, &mut kp_tx, Some([0, 0, 0]), Some(true), t);
    }
    assert_eq!((c.isr_count, c.isr_drops), (513, 2));
    assert_eq!((c.kp_count, c.kp_drops), (513, 2));
}

#[test]
fn commands_survive_any_cut() {
    let mut wire = command_to_wire(Command::SetDataRate(SampleRateHz(15000)));
    wire.extend(command_to_wire(Command::SetPga(32)));
    for cut in 0..=wire.len() {
        let mut buffer = CommandBuffer::new();
        let mut seen: Vec<Command> = Vec::new();
        for part in [&wire[..cut], &wire[cut..], &[][..]] {
            let (taken, command) = buffer.receive(part);
            assert_eq!(taken, part.len());
            seen.extend(command);
        }
        while let (_, Some(c)) = buffer.receive(&[]) {
            seen.push(c);
        }
        assert_eq!(seen, vec![Command::SetDataRate(SampleRateHz(15000)), Command::SetPga(32)]);
    }
}

#[test]
fn garbage_between_commands_is_dropped() {
    let mut buffer = CommandBuffer::new();
    assert_eq!(buffer.receive(&[0, 0, 0, 0, 1]), (5, None));
    assert_eq!(buffer.receive(&[0xFF, 0, 0, 0]), (4, None));
    assert_eq!(buffer.receive(&[0, 0, 0, 2, 9, 9]), (6, None));
    assert_eq!(
        buffer.receive(&command_to_wire(Command::SetPga(2))),
        (6, Some(Command::SetPga(2)))
    );
    // A frame that never ends fills the buffer, which is then emptied.
    assert_eq!(buffer.receive(&[0, 0, 0, 252]), (4, None));
    assert_eq!(buffer.receive(&[7; 300]).0, 252);
    assert_eq!(
        buffer.receive(&command_to_wire(Command::SetPga(8))),
        (6, Some(Command::SetPga(8)))
    );
}

#[test]
fn writes_go_on_where_they_stopped() {
    assert_eq!(unsent(&[1, 2, 3], 0), None);
    assert_eq!(unsent(&[1, 2, 3], 2), Some(&[3][..]));
    assert_eq!(unsent(&[1, 2, 3], 3), Some(&[][..]));
}

fn sent(action: StreamAction) -> Vec<u8> {
    match action {
        StreamAction::Send(bytes) => bytes,
        _ => panic!("nothing sent"),
    }
}

fn batch(samples: &[Sample]) -> SampleBatch {
    let mut b = SampleBatch::new();
    for s in samples {
        batch_next(&mut b, Some(*s));
    }
    b
}

fn captured(samples: &SampleBatch, reconfiguring: bool) -> StreamEvent<'_> {
    StreamEvent::Batch { samples, sample_rate: SampleRateHz(500), pga: 1, reconfiguring }
}

#[test]
fn stream_loop_runs_a_round() {
    let mut packed = PackedBatch::new();
    let (mut l, first) = StreamLoop::new();
    assert!(matches!(first, StreamAction::Connect));
    assert!(matches!(l.step(StreamEvent::Connected(false), &mut packed), StreamAction::Sleep(RECONNECT_MS)));
    assert!(matches!(l.step(StreamEvent::Slept, &mut packed), StreamAction::Connect));
    assert!(matches!(l.step(StreamEvent::Connected(true), &mut packed), StreamAction::ReadCommand));
    assert!(matches!(l.step(StreamEvent::CommandRead(true), &mut packed), StreamAction::Sleep(0)));
    assert!(matches!(l.step(StreamEvent::Slept, &mut packed), StreamAction::ReadCommand));
    assert!(matches!(l.step(StreamEvent::CommandRead(true), &mut packed), StreamAction::ReadCommand));
    assert!(matches!(l.step(StreamEvent::CommandRead(false), &mut packed), StreamAction::TakeEdge));
    let edge = sent(l.step(StreamEvent::Edge(Some(KpEvent { tick: 9 })), &mut packed));
    assert_eq!(edge, vec![0, 0, 0, 2, 2, 9]);
    assert!(matches!(l.step(StreamEvent::Sent(true), &mut packed), StreamAction::TakeEdge));
    assert!(matches!(l.step(StreamEvent::Edge(None), &mut packed), StreamAction::TakeSamples));
    let some = batch(&[sample(1, 0, 100), sample(2, 2, 103)]);
    let data = sent(l.step(captured(&some, false), &mut packed));
    assert_eq!(data.len(), parse_header(&data) as usize + 4);
    match decode_frame(&data[4..]) {
        Some(FrameOwned::DataPacked(p)) => {
            assert_eq!((p.seq, p.base_tick), (PacketSeq(1), 100));
            assert_eq!(unpack_samples_ch0(&p.samples, p.base_tick), some.samples().to_vec());
        }
        _ => panic!("no packed frame"),
    }
    assert_eq!(l.seq, 1);
    assert!(matches!(l.step(StreamEvent::Sent(true), &mut packed), StreamAction::ReadCommand));
    assert_eq!(l.phase, Phase::FirstCommand);
}

#[test]
fn nothing_is_sent_while_the_converter_changes() {
    let mut packed = PackedBatch::new();
    let some = batch(&[sample(1, 0, 100)]);
    let none = batch(&[]);
    let (mut l, _) = StreamLoop::new();
    for (b, changing, pause) in [(&some, true, RECONFIG_MS), (&none, false, IDLE_MS)] {
        l.phase = Phase::Samples;
        match l.step(captured(b, changing), &mut packed) {
            StreamAction::Sleep(ms) => assert_eq!(ms, pause),
            _ => panic!("no pause"),
        }
        assert_eq!(l.seq, 0);
        assert!(matches!(l.step(StreamEvent::Slept, &mut packed), StreamAction::ReadCommand));
    }
    l.phase = Phase::SendingBatch;
    assert!(matches!(l.step(StreamEvent::Sent(false), &mut packed), StreamAction::Sleep(RECONNECT_MS)));
}
