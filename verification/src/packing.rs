//! Channel 0 samples packed into six bytes each: a 24-bit big-endian reading,
//! the flags, and the ticks since the previous sample as a big-endian `u16`.

use crate::batch::PackedBatch;
use crate::protocol::{Sample, MAX_BATCH_SIZE, PACKED_CH0_SAMPLE_SIZE};
use crate::types::AdcCount;
use vstd::prelude::*;

verus! {

// ---------------------------------------------------------------------------
// 24-bit readings
// ---------------------------------------------------------------------------

/// The low 24 bits of a number, most significant byte first.
pub open spec fn i24_bytes(v: int) -> Seq<u8> {
    let m = v % 0x100_0000;
    seq![(m / 0x1_0000) as u8, (m / 0x100 % 0x100) as u8, (m % 0x100) as u8]
}

/// The signed number that three bytes stand for in two's complement.
pub open spec fn i24_value(s: Seq<u8>) -> int {
    let m = s[0] * 0x1_0000 + s[1] * 0x100 + s[2];
    if m < 0x80_0000 {
        m
    } else {
        m - 0x100_0000
    }
}

/// Whether a reading fits in 24 bits.
pub open spec fn is_i24(v: int) -> bool {
    -0x80_0000 <= v < 0x80_0000
}

/// A 24-bit reading is decoded to what was encoded.
pub proof fn law_i24_round_trip(v: int)
    requires
        is_i24(v),
    ensures
        i24_value(i24_bytes(v)) == v,
{
}

/// Every three bytes are the encoding of the 24-bit reading that they decode to.
pub proof fn law_i24_bytes_of_value(s: Seq<u8>)
    requires
        s.len() == 3,
    ensures
        is_i24(i24_value(s)),
        i24_bytes(i24_value(s)) == s,
{
    assert(i24_bytes(i24_value(s)) =~= s);
}

/// Writes the low 24 bits of a reading, most significant byte first.
#[verifier::spinoff_prover]
pub fn encode_i24_be(value: i32, out: &mut [u8; 3])
    ensures
        final(out)@ == i24_bytes(value as int),
{
    let b0: u8 = ((value >> 16) & 0xFF) as u8;
    let b1: u8 = ((value >> 8) & 0xFF) as u8;
    let b2: u8 = (value & 0xFF) as u8;
    proof {
        let u = value as u32;
        let m = u % 0x100_0000;
        assert(b0 == m / 0x1_0000 && b1 == m / 0x100 % 0x100 && b2 == m % 0x100) by (bit_vector)
            requires
                u == value as u32,
                m == u % 0x100_0000,
                b0 == ((value >> 16) & 0xFF) as u8,
                b1 == ((value >> 8) & 0xFF) as u8,
                b2 == (value & 0xFF) as u8,
        ;
        assert((value >= 0 ==> u == value) && (value < 0 ==> u == value + 0x1_0000_0000)) by (bit_vector)
            requires
                u == value as u32,
        ;
        assert(m as int == value as int % 0x100_0000);
    }
    out[0] = b0;
    out[1] = b1;
    out[2] = b2;
    assert(out@ =~= i24_bytes(value as int));
}

/// Reads a 24-bit two's complement number, most significant byte first.
pub fn decode_i24(buf: &[u8; 3]) -> (r: i32)
    ensures
        r == i24_value(buf@),
{
    let raw: i32 = buf[0] as i32 * 0x1_0000 + buf[1] as i32 * 0x100 + buf[2] as i32;
    if raw >= 0x80_0000 {
        raw - 0x100_0000
    } else {
        raw
    }
}

/// Reads a 24-bit two's complement number from the first three bytes.
pub fn decode_i24_be(bytes: &[u8]) -> (r: i32)
    requires
        bytes@.len() >= 3,
    ensures
        r == i24_value(bytes@),
{
    decode_i24(&[bytes[0], bytes[1], bytes[2]])
}

// ---------------------------------------------------------------------------
// Batches
// ---------------------------------------------------------------------------

/// The ticks from one sample to the next on the wrapping timer, as far as they
/// fit in 16 bits.
pub open spec fn tick_delta(prev: u64, tick: u64) -> u16 {
    let d = (tick - prev) % 0x1_0000_0000_0000_0000;
    if d <= u16::MAX {
        d as u16
    } else {
        u16::MAX
    }
}

/// A step of up to 65535 ticks leads from one tick to the other, also where the timer starts
/// over in between; a longer one is cut to 65535.
pub proof fn law_tick_steps(prev: u64, step: int)
    requires
        0 <= step < 0x1_0000_0000_0000_0000,
    ensures
        ({
            let tick = ((prev + step) % 0x1_0000_0000_0000_0000) as u64;
            &&& step <= 65535 ==> tick_delta(prev, tick) == step
            &&& step > 65535 ==> tick_delta(prev, tick) == 65535
        }),
{
}

/// One packed sample.
pub open spec fn packed_sample(s: Sample, delta: u16) -> Seq<u8> {
    i24_bytes(s.ch0.0 as int) + seq![s.flags, (delta / 0x100) as u8, (delta % 0x100) as u8]
}

/// The tick of the sample before the `i`th one; of the first sample itself for
/// the first one.
pub open spec fn previous_tick(samples: Seq<Sample>, i: int) -> u64 {
    if i == 0 {
        samples[0].tick
    } else {
        samples[i - 1].tick
    }
}

/// A packed batch: its samples one after another.
pub open spec fn packed_bytes(samples: Seq<Sample>) -> Seq<u8>
    decreases samples.len(),
{
    if samples.len() == 0 {
        seq![]
    } else {
        let i = samples.len() - 1;
        packed_bytes(samples.drop_last()) + packed_sample(
            samples[i],
            tick_delta(previous_tick(samples, i), samples[i].tick),
        )
    }
}

/// The tick of the first sample, 0 for an empty batch.
pub open spec fn base_tick(samples: Seq<Sample>) -> u64 {
    if samples.len() == 0 {
        0
    } else {
        samples[0].tick
    }
}

/// A packed batch takes six bytes for each sample.
pub proof fn law_packed_len(samples: Seq<Sample>)
    ensures
        packed_bytes(samples).len() == PACKED_CH0_SAMPLE_SIZE * samples.len(),
    decreases samples.len(),
{
    if samples.len() > 0 {
        law_packed_len(samples.drop_last());
    }
}

/// Sample `k` of a packed batch takes the bytes from six times `k` on: its reading in three
/// bytes, its flags, and the ticks since the sample before, 0 for the first, in two.
pub proof fn law_packed_sample_by_sample(samples: Seq<Sample>, k: int)
    requires
        0 <= k < samples.len(),
    ensures
        ({
            let b = packed_bytes(samples);
            &&& b.len() == 6 * samples.len()
            &&& (samples[k].ch0.0 - (0x1_0000 * b[6 * k] + 0x100 * b[6 * k + 1] + b[6 * k + 2]))
                % 0x100_0000 == 0
            &&& b[6 * k + 3] == samples[k].flags
            &&& 0x100 * b[6 * k + 4] + b[6 * k + 5] == if k == 0 {
                0
            } else {
                tick_delta(samples[k - 1].tick, samples[k].tick)
            }
        }),
    decreases samples.len(),
{
    let front = samples.drop_last();
    let i = samples.len() - 1;
    let b = packed_bytes(samples);
    law_packed_len(samples);
    law_packed_len(front);
    if k < i {
        law_packed_sample_by_sample(front, k);
        let f = packed_bytes(front);
        assert(b[6 * k] == f[6 * k] && b[6 * k + 1] == f[6 * k + 1] && b[6 * k + 2] == f[6 * k + 2]);
        assert(b[6 * k + 3] == f[6 * k + 3] && b[6 * k + 4] == f[6 * k + 4] && b[6 * k + 5] == f[6
            * k + 5]);
    } else {
        let one = packed_sample(samples[i], tick_delta(previous_tick(samples, i), samples[i].tick));
        assert(b[6 * k] == one[0] && b[6 * k + 1] == one[1] && b[6 * k + 2] == one[2]);
        assert(b[6 * k + 3] == one[3] && b[6 * k + 4] == one[4] && b[6 * k + 5] == one[5]);
    }
}

/// The sample that six bytes stand for, `tick` being that of the sample before.
pub open spec fn unpacked_sample(s: Seq<u8>, tick: u64) -> Sample {
    Sample {
        ch0: AdcCount(i24_value(s.take(3)) as i32),
        ch1: AdcCount(0),
        flags: s[3],
        tick: ((tick + s[4] * 0x100 + s[5]) % 0x1_0000_0000_0000_0000) as u64,
    }
}

/// The samples of a packed batch whose first tick is `base`.
pub open spec fn unpacked(s: Seq<u8>, base: u64) -> Seq<Sample>
    decreases s.len(),
{
    if s.len() < PACKED_CH0_SAMPLE_SIZE {
        seq![]
    } else {
        let front = s.take(s.len() - PACKED_CH0_SAMPLE_SIZE);
        let before = unpacked(front, base);
        let tick = if before.len() == 0 {
            base
        } else {
            before.last().tick
        };
        before.push(unpacked_sample(s.skip(s.len() - PACKED_CH0_SAMPLE_SIZE), tick))
    }
}

/// Whatever the bytes are, every six of them are one sample: the reading in the first three,
/// the flags, and a tick that lies as far behind that of the sample before, or behind the base
/// for the first, as the last two say.
pub proof fn law_unpacked_sample_by_sample(s: Seq<u8>, base: u64, n: nat, k: int)
    requires
        s.len() == 6 * n,
        0 <= k < n,
    ensures
        ({
            let r = unpacked(s, base);
            let prev = if k == 0 {
                base
            } else {
                r[k - 1].tick
            };
            &&& r.len() == n
            &&& is_i24(r[k].ch0.0 as int)
            &&& (r[k].ch0.0 - (0x1_0000 * s[6 * k] + 0x100 * s[6 * k + 1] + s[6 * k + 2]))
                % 0x100_0000 == 0
            &&& r[k].ch1.0 == 0
            &&& r[k].flags == s[6 * k + 3]
            &&& r[k].tick == (prev + 0x100 * s[6 * k + 4] + s[6 * k + 5])
                % 0x1_0000_0000_0000_0000
        }),
    decreases n,
{
    let front = s.take(s.len() - 6);
    lemma_unpacked_len(front, base, (n - 1) as nat);
    if k < n - 1 {
        law_unpacked_sample_by_sample(front, base, (n - 1) as nat, k);
        assert(front[6 * k] == s[6 * k] && front[6 * k + 1] == s[6 * k + 1] && front[6 * k + 2] == s[
        6 * k + 2]);
        assert(front[6 * k + 3] == s[6 * k + 3] && front[6 * k + 4] == s[6 * k + 4] && front[6 * k
            + 5] == s[6 * k + 5]);
    } else {
        let one = s.skip(s.len() - 6);
        assert(one[0] == s[6 * k] && one[1] == s[6 * k + 1] && one[2] == s[6 * k + 2]);
        assert(one[3] == s[6 * k + 3] && one[4] == s[6 * k + 4] && one[5] == s[6 * k + 5]);
    }
}

proof fn lemma_unpacked_len(s: Seq<u8>, base: u64, n: nat)
    requires
        s.len() == 6 * n,
    ensures
        unpacked(s, base).len() == n,
    decreases n,
{
    if n > 0 {
        lemma_unpacked_len(s.take(s.len() - 6), base, (n - 1) as nat);
    }
}

/// Packs the samples of a batch, channel 1 left out, and returns the tick of the
/// first one.
pub fn pack_samples_ch0(samples: &[Sample], packed: &mut PackedBatch) -> (base: u64)
    requires
        samples@.len() <= MAX_BATCH_SIZE,
    ensures
        base == base_tick(samples@),
        final(packed)@ == packed_bytes(samples@),
{
    packed.clear();
    let base: u64 = if samples.len() > 0 {
        samples[0].tick
    } else {
        0
    };
    let mut prev_tick: u64 = base;
    for i in 0..samples.len()
        invariant
            samples@.len() <= MAX_BATCH_SIZE,
            packed@ == packed_bytes(samples@.take(i as int)),
            base == base_tick(samples@),
            i > 0 ==> prev_tick == samples@[i - 1].tick,
            i == 0 ==> prev_tick == base,
    {
        let sample: Sample = samples[i];
        let mut ch0: [u8; 3] = [0, 0, 0];
        encode_i24_be(sample.ch0.0, &mut ch0);
        let ticks: u64 = sample.tick.wrapping_sub(prev_tick);
        let delta: u16 = if ticks <= u16::MAX as u64 {
            ticks as u16
        } else {
            u16::MAX
        };
        let ghost before = samples@.take(i as int);
        let ghost now = samples@.take(i + 1);
        proof {
            law_packed_len(before);
        }
        let _ = packed.extend(&ch0);
        let _ = packed.extend(&[sample.flags, (delta / 0x100) as u8, (delta % 0x100) as u8]);
        prev_tick = sample.tick;
        proof {
            assert(now.drop_last() =~= before);
            assert(delta == tick_delta(previous_tick(now, i as int), sample.tick));
            assert(packed@ =~= packed_bytes(now));
        }
    }
    assert(samples@.take(samples@.len() as int) =~= samples@);
    base
}

/// Reads the samples of a packed batch whose first tick is `base`.
pub fn unpack_samples_ch0(packed: &[u8], base: u64) -> (r: Vec<Sample>)
    requires
        packed@.len() % PACKED_CH0_SAMPLE_SIZE as nat == 0,
    ensures
        r@ == unpacked(packed@, base),
        r@.len() == packed@.len() / PACKED_CH0_SAMPLE_SIZE as nat,
{
    let mut out: Vec<Sample> = Vec::new();
    let mut tick: u64 = base;
    let len: usize = packed.len();
    let n: usize = len / PACKED_CH0_SAMPLE_SIZE;
    for i in 0..n
        invariant
            len == packed@.len(),
            len == 6 * n,
            out@ == unpacked(packed@.take(6 * i), base),
            out@.len() == i,
            tick == if out@.len() == 0 {
                base
            } else {
                out@.last().tick
            },
    {
        let at: usize = i * PACKED_CH0_SAMPLE_SIZE;
        let delta: u64 = packed[at + 4] as u64 * 0x100 + packed[at + 5] as u64;
        tick = tick.wrapping_add(delta);
        let ch0 = decode_i24(&[packed[at], packed[at + 1], packed[at + 2]]);
        let ghost now = packed@.take(6 * (i + 1));
        let ghost chunk = now.skip(now.len() - 6);
        proof {
            assert(now.take(now.len() - 6) =~= packed@.take(6 * i));
            assert(chunk =~= packed@.subrange(6 * i, 6 * i + 6));
            assert(chunk.take(3) =~= seq![packed@[6 * i], packed@[6 * i + 1], packed@[6 * i + 2]]);
        }
        out.push(Sample { ch0: AdcCount(ch0), ch1: AdcCount(0), flags: packed[at + 3], tick });
        assert(out@ =~= unpacked(now, base));
    }
    assert(packed@.take(6 * n as int) =~= packed@);
    out
}

/// A batch that packing keeps: 24-bit readings, no tick step over 16 bits.
pub open spec fn packs_exactly(samples: Seq<Sample>) -> bool {
    &&& forall|i: int| 0 <= i < samples.len() ==> is_i24((#[trigger] samples[i]).ch0.0 as int)
    &&& forall|i: int|
        0 < i < samples.len() ==> (#[trigger] samples[i].tick - samples[i - 1].tick)
            % 0x1_0000_0000_0000_0000 <= u16::MAX
}

/// A sample without its channel 1.
pub open spec fn without_ch1(s: Sample) -> Sample {
    Sample { ch0: s.ch0, ch1: AdcCount(0), flags: s.flags, tick: s.tick }
}

/// Unpacking one packed sample gives it back.
proof fn lemma_unpack_sample(s: Sample, prev: u64)
    requires
        is_i24(s.ch0.0 as int),
        (s.tick - prev) % 0x1_0000_0000_0000_0000 <= u16::MAX,
    ensures
        unpacked_sample(packed_sample(s, tick_delta(prev, s.tick)), prev) == without_ch1(s),
{
    let delta = tick_delta(prev, s.tick);
    let chunk = packed_sample(s, delta);
    assert(chunk.take(3) =~= i24_bytes(s.ch0.0 as int));
    law_i24_round_trip(s.ch0.0 as int);
    assert(chunk[4] * 0x100 + chunk[5] == delta);
    assert((prev + delta) % 0x1_0000_0000_0000_0000 == s.tick);
}

/// Unpacking a packed batch gives its samples back, channel 1 set to 0.
#[verifier::spinoff_prover]
pub proof fn law_unpack_packed(samples: Seq<Sample>)
    requires
        packs_exactly(samples),
    ensures
        unpacked(packed_bytes(samples), base_tick(samples)) == samples.map_values(
            |s: Sample| without_ch1(s),
        ),
    decreases samples.len(),
{
    let bytes = packed_bytes(samples);
    let want = samples.map_values(|s: Sample| without_ch1(s));
    law_packed_len(samples);
    if samples.len() > 0 {
        let i = samples.len() - 1;
        let front = samples.drop_last();
        assert(packs_exactly(front)) by {
            assert forall|j: int| 0 < j < front.len() implies (#[trigger] front[j].tick - front[j
                - 1].tick) % 0x1_0000_0000_0000_0000 <= u16::MAX by {
                assert(samples[j].tick == front[j].tick);
            }
        }
        law_unpack_packed(front);
        law_packed_len(front);
        let prev = previous_tick(samples, i);
        let chunk = packed_sample(samples[i], tick_delta(prev, samples[i].tick));
        assert(bytes.take(bytes.len() - 6) =~= packed_bytes(front));
        assert(bytes.skip(bytes.len() - 6) =~= chunk);
        if i > 0 {
            assert((samples[i].tick - samples[i - 1].tick) % 0x1_0000_0000_0000_0000 <= u16::MAX);
        }
        lemma_unpack_sample(samples[i], prev);
        let before = unpacked(packed_bytes(front), base_tick(samples));
        if i > 0 {
            assert(before =~= front.map_values(|s: Sample| without_ch1(s)));
            assert(before.last().tick == prev);
        }
        assert(want =~= before.push(without_ch1(samples[i])));
    }
}

} // verus!
