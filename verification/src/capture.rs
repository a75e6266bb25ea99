//! What happens on an interrupt: a conversion or a keyphasor edge is stamped and
//! put into its queue.

use crate::batch::{edge_offers, enqueue_edge, enqueue_sample, sample_offers};
use crate::packing::{decode_i24, i24_value};
use crate::protocol::{KpEvent, Sample};
use crate::types::AdcCount;
use vstd::prelude::*;

verus! {

/// Samples that the sample queue holds. A `heapless` queue of `N` places holds `N - 1`.
pub const SAMPLE_QUE_SIZE: usize = 4096;

/// Edges that the keyphasor queue holds.
pub const KP_QUE_SIZE: usize = 32;

/// Samples per revolution of the synthetic source.
pub const STUB_KP_PERIOD: u32 = 40;

/// The count after one more, on a counter that wraps.
pub open spec fn count_up(n: u16) -> u16 {
    if n == u16::MAX {
        0
    } else {
        (n + 1) as u16
    }
}

/// The capture counters since they were last read, and the keyphasor level.
#[derive(Debug, Clone, Copy, PartialEq, Eq, Structural)]
pub struct Capture {
    /// Level of the keyphasor input after its last edge.
    pub kp_level: bool,
    /// Conversions read.
    pub isr_count: u16,
    /// Samples that the queue refused.
    pub isr_drops: u16,
    /// Rising keyphasor edges.
    pub kp_count: u16,
    /// Keyphasor edges that the queue refused.
    pub kp_drops: u16,
}

/// The sample made of a conversion.
pub open spec fn captured_sample(raw: Seq<u8>, level: bool, tick: u64) -> Sample {
    Sample {
        ch0: AdcCount(i24_value(raw) as i32),
        ch1: AdcCount(0),
        flags: if level {
            0x02
        } else {
            0x00
        },
        tick,
    }
}

impl Capture {
    /// The state after a conversion whose sample was stored or refused.
    pub open spec fn after_sample(self, stored: bool) -> Capture {
        Capture {
            isr_count: count_up(self.isr_count),
            isr_drops: if stored {
                self.isr_drops
            } else {
                count_up(self.isr_drops)
            },
            ..self
        }
    }

    /// The state after a keyphasor edge to `level`; a rising one was stored or
    /// refused.
    pub open spec fn after_edge(self, level: bool, stored: bool) -> Capture {
        if level {
            Capture {
                kp_level: true,
                kp_count: count_up(self.kp_count),
                kp_drops: if stored {
                    self.kp_drops
                } else {
                    count_up(self.kp_drops)
                },
                ..self
            }
        } else {
            Capture { kp_level: false, ..self }
        }
    }

    /// Counters at 0, the input low.
    pub fn new() -> (r: Capture)
        ensures
            r == (Capture { kp_level: false, isr_count: 0, isr_drops: 0, kp_count: 0, kp_drops: 0 }),
    {
        Capture { kp_level: false, isr_count: 0, isr_drops: 0, kp_count: 0, kp_drops: 0 }
    }

    /// The sample made of a conversion that was read at `tick`.
    pub fn sample(&self, raw: &[u8; 3], tick: u64) -> (s: Sample)
        ensures
            s == captured_sample(raw@, self.kp_level, tick),
    {
        let flags: u8 = if self.kp_level {
            Sample::KEYPHASOR_LEVEL_FLAG
        } else {
            0
        };
        Sample { ch0: AdcCount(decode_i24(raw)), ch1: AdcCount(0), flags, tick }
    }

    /// Counts a conversion whose sample was stored or refused.
    pub fn note_sample(&mut self, stored: bool)
        ensures
            *final(self) == old(self).after_sample(stored),
    {
        self.isr_count = self.isr_count.wrapping_add(1);
        if !stored {
            self.isr_drops = self.isr_drops.wrapping_add(1);
        }
    }

    /// Counts a keyphasor edge; a rising one was stored or refused.
    pub fn note_edge(&mut self, level: bool, stored: bool)
        ensures
            *final(self) == old(self).after_edge(level, stored),
    {
        self.kp_level = level;
        if level {
            self.kp_count = self.kp_count.wrapping_add(1);
            if !stored {
                self.kp_drops = self.kp_drops.wrapping_add(1);
            }
        }
    }

    /// Handles an interrupt at `tick`. `drdy` is the conversion that was read, if
    /// the data-ready line fired; `kp` is the level of the keyphasor input, if that
    /// fired. Every conversion is offered to the sample queue, with the level from
    /// before the interrupt, and every rising edge to the edge queue, both with the
    /// same tick. Returns whether each was put in, which depends on the other ends.
    pub fn on_interrupt(
        &mut self,
        tx: &mut heapless::spsc::Producer<'static, Sample>,
        kp_tx: &mut heapless::spsc::Producer<'static, KpEvent>,
        drdy: Option<[u8; 3]>,
        kp: Option<bool>,
        tick: u64,
    ) -> (stored: (bool, bool))
        ensures
            sample_offers(*final(tx)) == match drdy {
                Some(raw) => sample_offers(*old(tx)).push(
                    (captured_sample(raw@, old(self).kp_level, tick), stored.0),
                ),
                None => sample_offers(*old(tx)),
            },
            edge_offers(*final(kp_tx)) == if kp == Some(true) {
                edge_offers(*old(kp_tx)).push((KpEvent { tick }, stored.1))
            } else {
                edge_offers(*old(kp_tx))
            },
            drdy is None ==> !stored.0,
            kp != Some(true) ==> !stored.1,
            *final(self) == {
                let a = match drdy {
                    Some(_) => old(self).after_sample(stored.0),
                    None => *old(self),
                };
                match kp {
                    Some(level) => a.after_edge(level, stored.1),
                    None => a,
                }
            },
    {
        let mut sample_stored: bool = false;
        let mut edge_stored: bool = false;
        if let Some(raw) = drdy {
            let s = self.sample(&raw, tick);
            sample_stored = enqueue_sample(tx, s);
            self.note_sample(sample_stored);
        }
        if let Some(level) = kp {
            if level {
                edge_stored = enqueue_edge(kp_tx, KpEvent { tick });
            }
            self.note_edge(level, edge_stored);
        }
        (sample_stored, edge_stored)
    }

    /// Reads the counters and sets them back to 0.
    pub fn take_stats(&mut self) -> (r: Capture)
        ensures
            r == *old(self),
            *final(self) == (Capture {
                kp_level: old(self).kp_level,
                isr_count: 0,
                isr_drops: 0,
                kp_count: 0,
                kp_drops: 0,
            }),
    {
        let r: Capture = *self;
        self.isr_count = 0;
        self.isr_drops = 0;
        self.kp_count = 0;
        self.kp_drops = 0;
        r
    }
}

/// Every sample that is captured carries the 24-bit reading, the level bit alone
/// of all flags, and the tick of the interrupt.
pub proof fn law_captured_sample(raw: Seq<u8>, level: bool, tick: u64)
    requires
        raw.len() == 3,
    ensures
        ({
            let s = captured_sample(raw, level, tick);
            &&& -0x80_0000 <= s.ch0.0 < 0x80_0000
            &&& s.has_level() == level
            &&& !s.has_edge()
            &&& s.tick == tick
        }),
{
}

/// The first channel of a captured sample is the signed number that the three bytes are,
/// highest first; the second is 0, and no flag but the level is ever set.
pub proof fn law_captured_reading(raw: Seq<u8>, level: bool, tick: u64)
    requires
        raw.len() == 3,
    ensures
        ({
            let s = captured_sample(raw, level, tick);
            let m = 0x1_0000 * raw[0] + 0x100 * raw[1] + raw[2];
            &&& s.ch0.0 == m || s.ch0.0 == m - 0x100_0000
            &&& s.ch0.0 < 0 <==> raw[0] >= 0x80
            &&& s.ch1.0 == 0
            &&& s.flags == if level {
                2int
            } else {
                0
            }
        }),
{
}

/// Every conversion is counted, and each one that was refused is counted as lost besides; the
/// keyphasor is not touched. Counters start over at 65536.
pub proof fn law_conversions_are_counted(c: Capture, stored: bool)
    ensures
        ({
            let d = c.after_sample(stored);
            &&& d.isr_count == (c.isr_count + 1) % 0x1_0000
            &&& stored ==> d.isr_drops == c.isr_drops
            &&& !stored ==> d.isr_drops == (c.isr_drops + 1) % 0x1_0000
            &&& d.kp_level == c.kp_level && d.kp_count == c.kp_count && d.kp_drops == c.kp_drops
        }),
{
}

/// The level of the keyphasor is that of its last edge; rising edges are counted, and each
/// one that was refused is counted as lost besides; falling ones are not counted, and the
/// conversions are not touched.
pub proof fn law_edges_are_counted(c: Capture, level: bool, stored: bool)
    ensures
        ({
            let d = c.after_edge(level, stored);
            &&& d.kp_level == level
            &&& level ==> d.kp_count == (c.kp_count + 1) % 0x1_0000
            &&& level && !stored ==> d.kp_drops == (c.kp_drops + 1) % 0x1_0000
            &&& !level ==> d.kp_count == c.kp_count
            &&& !level || stored ==> d.kp_drops == c.kp_drops
            &&& d.isr_count == c.isr_count && d.isr_drops == c.isr_drops
        }),
{
}

/// Whether the synthetic source gives an edge before its sample number `count`.
pub open spec fn stub_edge(count: u32) -> bool {
    count % STUB_KP_PERIOD == 0
}

/// The synthetic source starts with an edge and gives one every 40 samples, none in between.
pub proof fn law_stub_turns_evenly(count: u32, k: u32)
    requires
        count + 40 <= u32::MAX,
        0 < k < 40,
        stub_edge(count),
    ensures
        stub_edge(0),
        !stub_edge((count + k) as u32),
        stub_edge((count + 40) as u32),
{
}

/// Whether the synthetic source gives an edge before its sample number `count`.
pub fn stub_edge_due(count: u32) -> (r: bool)
    ensures
        r == stub_edge(count),
{
    count % STUB_KP_PERIOD == 0
}

} // verus!
