//! The messages exchanged with the front end.

use crate::types::{AdcCount, PacketSeq, SampleRateHz};
use vstd::prelude::*;

verus! {

/// Bytes that one sample takes in a packed packet: a 24-bit reading, the flags
/// and a 16-bit tick delta.
pub const PACKED_CH0_SAMPLE_SIZE: usize = 6;

/// Bytes of the big-endian payload length in front of every payload.
pub const HEADER_SIZE: usize = 4;

/// The largest number of samples in one packet.
pub const MAX_BATCH_SIZE: usize = 250;

/// The largest number of payload bytes that the samples of one packed packet take.
pub const MAX_PACKED_BATCH_SIZE: usize = 1500;

/// One reading of the converter.
///
/// `tick` is the 16 MHz timer at the moment the conversion finished, the same
/// clock that stamps a [`KpEvent`].
#[derive(Debug, Clone, Copy, PartialEq, Eq, Structural)]
pub struct Sample {
    /// Channel 0, 24-bit signed.
    pub ch0: AdcCount,
    /// Channel 1, 24-bit signed.
    pub ch1: AdcCount,
    /// Keyphasor bits, see [`Sample::KEYPHASOR_FLAG`] and
    /// [`Sample::KEYPHASOR_LEVEL_FLAG`].
    pub flags: u8,
    /// Timer value at the end of the conversion.
    pub tick: u64,
}

impl Sample {
    /// A rising keyphasor edge fell into this sample.
    pub const KEYPHASOR_FLAG: u8 = 0x01;

    /// The keyphasor input was high at this sample.
    pub const KEYPHASOR_LEVEL_FLAG: u8 = 0x02;

    /// Whether the edge bit is set.
    pub open spec fn has_edge(self) -> bool {
        self.flags % 2 == 1
    }

    /// Whether the level bit is set.
    pub open spec fn has_level(self) -> bool {
        (self.flags / 2) % 2 == 1
    }

    /// Whether a rising keyphasor edge fell into this sample.
    pub fn keyphasor(&self) -> (r: bool)
        ensures
            r == self.has_edge(),
    {
        let flags: u8 = self.flags;
        assert((flags & 0x01 != 0) == (flags % 2 == 1)) by (bit_vector);
        flags & Self::KEYPHASOR_FLAG != 0
    }

    /// Whether the keyphasor input was high at this sample.
    pub fn keyphasor_level(&self) -> (r: bool)
        ensures
            r == self.has_level(),
    {
        let flags: u8 = self.flags;
        assert((flags & 0x02 != 0) == ((flags / 2) % 2 == 1)) by (bit_vector);
        flags & Self::KEYPHASOR_LEVEL_FLAG != 0
    }
}

/// The edge is bit 0 of the flags and the level is bit 1; the other bits, the readings and the
/// tick do not count.
pub proof fn law_flags_are_bits(s: Sample, t: Sample)
    ensures
        s.has_edge() <==> s.flags & 1 != 0,
        s.has_level() <==> s.flags & 2 != 0,
        s.flags & 3 == t.flags & 3 ==> s.has_edge() == t.has_edge() && s.has_level()
            == t.has_level(),
{
    let (a, b) = (s.flags, t.flags);
    assert((a & 1 != 0) == (a % 2 == 1) && (a & 2 != 0) == ((a / 2) % 2 == 1)) by (bit_vector);
    assert(a & 3 == b & 3 ==> a % 2 == b % 2 && (a / 2) % 2 == (b / 2) % 2) by (bit_vector);
}

/// A rising keyphasor edge, stamped by the timer.
#[derive(Debug, Clone, Copy, PartialEq, Eq, Structural)]
pub struct KpEvent {
    /// Timer value at the edge.
    pub tick: u64,
}

/// A batch of samples on the sending side.
#[derive(Debug, Clone, Copy)]
pub struct Packet<'a> {
    pub seq: PacketSeq,
    pub sample_rate: SampleRateHz,
    /// Converter gain that the readings were taken with.
    pub pga: u8,
    pub samples: &'a [Sample],
}

/// A batch of channel 0 samples on the sending side, each packed into
/// [`PACKED_CH0_SAMPLE_SIZE`] bytes.
#[derive(Debug, Clone, Copy)]
pub struct PackedPacket<'a> {
    pub seq: PacketSeq,
    pub sample_rate: SampleRateHz,
    /// Converter gain that the readings were taken with.
    pub pga: u8,
    /// Tick of the first sample.
    pub base_tick: u64,
    pub samples: &'a [u8],
}

/// A batch of samples on the receiving side.
#[derive(Debug, Clone)]
pub struct PacketOwned {
    pub seq: PacketSeq,
    pub sample_rate: SampleRateHz,
    pub pga: u8,
    pub samples: Vec<Sample>,
}

/// A packed batch on the receiving side.
#[derive(Debug, Clone)]
pub struct PackedPacketOwned {
    pub seq: PacketSeq,
    pub sample_rate: SampleRateHz,
    pub pga: u8,
    pub base_tick: u64,
    pub samples: Vec<u8>,
}

/// A message from the front end, on the sending side.
#[derive(Debug, Clone, Copy)]
pub enum Frame<'a> {
    /// A batch of samples of both channels.
    Data(Packet<'a>),
    /// A packed batch of channel 0.
    DataPacked(PackedPacket<'a>),
    /// A keyphasor edge.
    Keyphasor(KpEvent),
}

/// A message from the front end, on the receiving side.
#[derive(Debug, Clone)]
pub enum FrameOwned {
    Data(PacketOwned),
    DataPacked(PackedPacketOwned),
    Keyphasor(KpEvent),
}

/// A request to the front end.
#[derive(Debug, Clone, Copy, PartialEq, Eq, Structural)]
pub enum Command {
    /// Set the converter gain: 1, 2, 4, 8, 16, 32 or 64.
    SetPga(u8),
    /// Set the sample rate.
    SetDataRate(SampleRateHz),
}

/// What a frame says, on either side of the wire.
#[verifier::ext_equal]
pub ghost enum FrameView {
    Data { seq: PacketSeq, sample_rate: SampleRateHz, pga: u8, samples: Seq<Sample> },
    DataPacked {
        seq: PacketSeq,
        sample_rate: SampleRateHz,
        pga: u8,
        base_tick: u64,
        packed: Seq<u8>,
    },
    Keyphasor { tick: u64 },
}

impl<'a> View for Frame<'a> {
    type V = FrameView;

    open spec fn view(&self) -> FrameView {
        match *self {
            Frame::Data(p) => FrameView::Data {
                seq: p.seq,
                sample_rate: p.sample_rate,
                pga: p.pga,
                samples: p.samples@,
            },
            Frame::DataPacked(p) => FrameView::DataPacked {
                seq: p.seq,
                sample_rate: p.sample_rate,
                pga: p.pga,
                base_tick: p.base_tick,
                packed: p.samples@,
            },
            Frame::Keyphasor(e) => FrameView::Keyphasor { tick: e.tick },
        }
    }
}

impl View for FrameOwned {
    type V = FrameView;

    open spec fn view(&self) -> FrameView {
        match *self {
            FrameOwned::Data(p) => FrameView::Data {
                seq: p.seq,
                sample_rate: p.sample_rate,
                pga: p.pga,
                samples: p.samples@,
            },
            FrameOwned::DataPacked(p) => FrameView::DataPacked {
                seq: p.seq,
                sample_rate: p.sample_rate,
                pga: p.pga,
                base_tick: p.base_tick,
                packed: p.samples@,
            },
            FrameOwned::Keyphasor(e) => FrameView::Keyphasor { tick: e.tick },
        }
    }
}

} // verus!
