//! Messages as bytes.
//!
//! A payload is the fields of a message one after another, in the postcard
//! format: the index of the enum variant first, integers as varints, signed
//! integers zigzag-folded, `u8` as itself, and a sequence as its length followed
//! by its items. On the wire a payload stands behind its own length, a
//! big-endian `u32`.

use crate::protocol::{
    Command, Frame, FrameOwned, FrameView, HEADER_SIZE, KpEvent, MAX_PACKED_BATCH_SIZE,
    PackedPacketOwned, PacketOwned, Sample,
};
use crate::types::{AdcCount, PacketSeq, SampleRateHz};
use vstd::prelude::*;

verus! {

// ---------------------------------------------------------------------------
// Integers
// ---------------------------------------------------------------------------

/// A number in groups of seven bits, the lowest first; every byte but the last
/// has its top bit set.
pub open spec fn varint(v: nat) -> Seq<u8>
    decreases v,
{
    if v < 128 {
        seq![v as u8]
    } else {
        seq![(128 + v % 128) as u8] + varint(v / 128)
    }
}

/// The number that `s` starts with, of at most `groups` groups, and how many
/// bytes it takes.
pub open spec fn read_varint(s: Seq<u8>, groups: nat) -> Option<(nat, nat)>
    decreases groups,
{
    if groups == 0 || s.len() == 0 {
        None
    } else if s[0] < 128 {
        Some((s[0] as nat, 1))
    } else {
        match read_varint(s.skip(1), (groups - 1) as nat) {
            None => None,
            Some((v, n)) => Some(((s[0] - 128 + 128 * v) as nat, n + 1)),
        }
    }
}

/// What is left of `s` behind the number that it starts with, and that number,
/// if there is one that does not exceed `max`.
pub open spec fn read_uint(s: Seq<u8>, groups: nat, max: nat) -> Option<(nat, Seq<u8>)> {
    match read_varint(s, groups) {
        Some((v, n)) => if v <= max {
            Some((v, s.skip(n as int)))
        } else {
            None
        },
        None => None,
    }
}

pub open spec fn read_u16(s: Seq<u8>) -> Option<(nat, Seq<u8>)> {
    read_uint(s, 3, u16::MAX as nat)
}

pub open spec fn read_u32(s: Seq<u8>) -> Option<(nat, Seq<u8>)> {
    read_uint(s, 5, u32::MAX as nat)
}

pub open spec fn read_u64(s: Seq<u8>) -> Option<(nat, Seq<u8>)> {
    read_uint(s, 10, u64::MAX as nat)
}

/// A signed number folded onto the natural ones: 0, -1, 1, -2, 2, ...
pub open spec fn zigzag(v: int) -> nat {
    if v >= 0 {
        (2 * v) as nat
    } else {
        (-2 * v - 1) as nat
    }
}

/// The signed number that folds onto `v`.
pub open spec fn unzigzag(v: nat) -> int {
    if v % 2 == 0 {
        v as int / 2
    } else {
        -((v as int + 1) / 2)
    }
}

/// `postcard::to_allocvec` of a `u64`: the number as a varint. The narrower
/// unsigned types are written with the same bytes.
#[verifier::external_body]
fn postcard_uint(v: u64) -> (r: Vec<u8>)
    ensures
        r@ == varint(v as nat),
{
    postcard::to_allocvec(&v).unwrap()
}

/// `postcard::to_allocvec` of an `i32`: the folded number as a varint.
#[verifier::external_body]
fn postcard_i32(v: i32) -> (r: Vec<u8>)
    ensures
        r@ == varint(zigzag(v as int)),
{
    postcard::to_allocvec(&v).unwrap()
}

/// `postcard::take_from_bytes` of a `u16`: the varint in front, of at most three
/// groups and within the type, and the bytes behind it.
#[verifier::external_body]
fn postcard_take_u16<'a>(s: &'a [u8]) -> (r: Option<(u16, &'a [u8])>)
    ensures
        match r {
            Some((v, rest)) => read_u16(s@) == Some((v as nat, rest@)),
            None => read_u16(s@) is None,
        },
{
    postcard::take_from_bytes::<u16>(s).ok()
}

/// `postcard::take_from_bytes` of a `u32`: the varint in front, of at most five
/// groups and within the type, and the bytes behind it.
#[verifier::external_body]
fn postcard_take_u32<'a>(s: &'a [u8]) -> (r: Option<(u32, &'a [u8])>)
    ensures
        match r {
            Some((v, rest)) => read_u32(s@) == Some((v as nat, rest@)),
            None => read_u32(s@) is None,
        },
{
    postcard::take_from_bytes::<u32>(s).ok()
}

/// `postcard::take_from_bytes` of a `u64`: the varint in front, of at most ten
/// groups and within the type, and the bytes behind it.
#[verifier::external_body]
fn postcard_take_u64<'a>(s: &'a [u8]) -> (r: Option<(u64, &'a [u8])>)
    ensures
        match r {
            Some((v, rest)) => read_u64(s@) == Some((v as nat, rest@)),
            None => read_u64(s@) is None,
        },
{
    postcard::take_from_bytes::<u64>(s).ok()
}

/// `postcard::take_from_bytes` of an `i32`: the number that the `u32` in front
/// stands for, and the bytes behind it.
#[verifier::external_body]
fn postcard_take_i32<'a>(s: &'a [u8]) -> (r: Option<(i32, &'a [u8])>)
    ensures
        match r {
            Some((v, rest)) => read_u32(s@) matches Some((w, t)) && v == unzigzag(w) && t
                == rest@,
            None => read_u32(s@) is None,
        },
{
    postcard::take_from_bytes::<i32>(s).ok()
}

/// A number written as a varint takes at most as many groups as its width has
/// sevens of bits.
proof fn lemma_varint_len(v: nat, groups: nat)
    requires
        groups >= 1,
        v < pow128(groups),
    ensures
        1 <= varint(v).len() <= groups,
    decreases groups,
{
    if v >= 128 {
        assert(groups > 1) by {
            reveal_with_fuel(pow128, 2);
        }
        lemma_varint_len(v / 128, (groups - 1) as nat);
    }
}

spec fn pow128(n: nat) -> nat
    decreases n,
{
    if n == 0 {
        1
    } else {
        128 * pow128((n - 1) as nat)
    }
}

/// Reading what was written gives the number and what stood behind it.
proof fn lemma_read_back(v: nat, groups: nat, rest: Seq<u8>)
    requires
        groups >= 1,
        v < pow128(groups),
    ensures
        read_varint(varint(v) + rest, groups) == Some((v, varint(v).len())),
        (varint(v) + rest).skip(varint(v).len() as int) == rest,
        1 <= varint(v).len() <= groups,
    decreases groups,
{
    let s = varint(v) + rest;
    assert(s.skip(varint(v).len() as int) =~= rest);
    lemma_varint_len(v, groups);
    if v >= 128 {
        assert(groups > 1) by {
            reveal_with_fuel(pow128, 2);
        }
        lemma_read_back(v / 128, (groups - 1) as nat, rest);
        assert(s.skip(1) =~= varint(v / 128) + rest);
        assert(s[0] == (128 + v % 128) as u8);
        assert(s[0] - 128 + 128 * (v / 128) == v);
    }
}

proof fn lemma_pow128()
    ensures
        pow128(3) == 0x20_0000,
        pow128(5) == 0x8_0000_0000,
        pow128(10) == 0x40_0000_0000_0000_0000,
{
    reveal_with_fuel(pow128, 11);
}

/// Every `u16` written as a varint is read back, and so is what stands behind it.
pub proof fn law_u16_read_back(v: u16, rest: Seq<u8>)
    ensures
        read_u16(varint(v as nat) + rest) == Some((v as nat, rest)),
        1 <= varint(v as nat).len() <= 3,
{
    lemma_pow128();
    lemma_read_back(v as nat, 3, rest);
}

/// Every `u32` written as a varint is read back, and so is what stands behind it.
pub proof fn law_u32_read_back(v: u32, rest: Seq<u8>)
    ensures
        read_u32(varint(v as nat) + rest) == Some((v as nat, rest)),
        1 <= varint(v as nat).len() <= 5,
{
    lemma_pow128();
    lemma_read_back(v as nat, 5, rest);
}

/// Every `u64` written as a varint is read back, and so is what stands behind it.
pub proof fn law_u64_read_back(v: u64, rest: Seq<u8>)
    ensures
        read_u64(varint(v as nat) + rest) == Some((v as nat, rest)),
        1 <= varint(v as nat).len() <= 10,
{
    lemma_pow128();
    lemma_read_back(v as nat, 10, rest);
}

/// Folding a signed number and unfolding it gives the number again.
pub proof fn law_zigzag_inverse(v: int)
    ensures
        unzigzag(zigzag(v)) == v,
        i32::MIN <= v <= i32::MAX ==> zigzag(v) <= u32::MAX,
{
}

/// Every natural number is what some signed number folds onto, and the folds are in the order
/// of the distances from 0: a number at a distance of `d` folds onto twice that, one less if
/// it is below 0.
pub proof fn law_zigzag_by_distance(n: nat, v: int)
    ensures
        zigzag(unzigzag(n)) == n,
        v >= 0 ==> zigzag(v) == v + v,
        v < 0 ==> zigzag(v) + 1 == -v + -v,
{
}

/// A varint has its top bit set in every byte but the last, and the first byte holds the
/// lowest seven bits.
pub proof fn law_varint_shape(v: nat)
    ensures
        varint(v).len() > 0,
        varint(v).last() < 128,
        forall|i: int| 0 <= i < varint(v).len() - 1 ==> (#[trigger] varint(v)[i]) >= 128,
        varint(v)[0] % 128 == v % 128,
        varint(v).len() > 1 ==> varint(v).last() > 0,
        varint(v).len() == 1 <==> v < 128,
    decreases v,
{
    if v >= 128 {
        let t = varint(v / 128);
        law_varint_shape(v / 128);
        assert(varint(v).last() == t.last());
        assert forall|i: int| 0 <= i < varint(v).len() - 1 implies (#[trigger] varint(v)[i])
            >= 128 by {
            if i > 0 {
                assert(varint(v)[i] == t[i - 1]);
            }
        }
    }
}

// ---------------------------------------------------------------------------
// Commands
// ---------------------------------------------------------------------------

/// The payload of a command.
pub open spec fn command_bytes(c: Command) -> Seq<u8> {
    match c {
        Command::SetPga(pga) => varint(0) + seq![pga],
        Command::SetDataRate(rate) => varint(1) + varint(rate.0 as nat),
    }
}

/// The command that a payload starts with. What follows it is ignored.
pub open spec fn read_command(s: Seq<u8>) -> Option<Command> {
    match read_u32(s) {
        Some((tag, rest)) => if tag == 0 {
            if rest.len() > 0 {
                Some(Command::SetPga(rest[0]))
            } else {
                None
            }
        } else if tag == 1 {
            match read_u16(rest) {
                Some((rate, _)) => Some(Command::SetDataRate(SampleRateHz(rate as u16))),
                None => None,
            }
        } else {
            None
        },
        None => None,
    }
}

/// Writes the payload of a command.
pub fn encode_command(c: Command) -> (r: Vec<u8>)
    ensures
        r@ == command_bytes(c),
        2 <= r@.len() <= 4,
{
    proof {
        law_u32_read_back(0, seq![]);
        law_u32_read_back(1, seq![]);
    }
    match c {
        Command::SetPga(pga) => {
            let mut out = postcard_uint(0);
            out.push(pga);
            assert(out@ =~= command_bytes(c));
            out
        },
        Command::SetDataRate(rate) => {
            proof {
                law_u16_read_back(rate.0, seq![]);
            }
            let mut out = postcard_uint(1);
            let mut field = postcard_uint(rate.0 as u64);
            out.append(&mut field);
            out
        },
    }
}

/// Reads a command from a payload.
pub fn decode_command(s: &[u8]) -> (r: Option<Command>)
    ensures
        r == read_command(s@),
{
    match postcard_take_u32(s) {
        None => None,
        Some((tag, rest)) => {
            if tag == 0 {
                if rest.len() > 0 {
                    Some(Command::SetPga(rest[0]))
                } else {
                    None
                }
            } else if tag == 1 {
                match postcard_take_u16(rest) {
                    Some((rate, _)) => Some(Command::SetDataRate(SampleRateHz(rate))),
                    None => None,
                }
            } else {
                None
            }
        },
    }
}

/// A command that was written is read back.
pub proof fn law_command_read_back(c: Command, rest: Seq<u8>)
    ensures
        read_command(command_bytes(c) + rest) == Some(c),
{
    match c {
        Command::SetPga(pga) => {
            law_u32_read_back(0, seq![pga] + rest);
            assert(command_bytes(c) + rest =~= varint(0) + (seq![pga] + rest));
        },
        Command::SetDataRate(rate) => {
            law_u32_read_back(1, varint(rate.0 as nat) + rest);
            law_u16_read_back(rate.0, rest);
            assert(command_bytes(c) + rest =~= varint(1) + (varint(rate.0 as nat) + rest));
        },
    }
}

/// A gain is asked for in two bytes, 0 and the gain; a rate in 1 and its groups of seven bits,
/// the lowest first.
pub proof fn law_commands_on_the_wire(pga: u8, rate: u16)
    ensures
        command_bytes(Command::SetPga(pga)) == seq![0u8, pga],
        rate < 128 ==> command_bytes(Command::SetDataRate(SampleRateHz(rate))) == seq![
            1u8,
            rate as u8,
        ],
        128 <= rate < 16384 ==> command_bytes(Command::SetDataRate(SampleRateHz(rate))) == seq![
            1u8,
            (128 + rate % 128) as u8,
            (rate / 128) as u8,
        ],
        rate >= 16384 ==> command_bytes(Command::SetDataRate(SampleRateHz(rate))) == seq![
            1u8,
            (128 + rate % 128) as u8,
            (128 + rate / 128 % 128) as u8,
            (rate / 16384) as u8,
        ],
{
    reveal_with_fuel(varint, 3);
    let c = command_bytes(Command::SetDataRate(SampleRateHz(rate)));
    let n = rate as nat;
    assert(n / 128 / 128 == n / 16384);
    assert(command_bytes(Command::SetPga(pga)) =~= seq![0u8, pga]);
    if rate < 128 {
        assert(c =~= seq![1u8, rate as u8]);
    } else if rate < 16384 {
        assert(c =~= seq![1u8, (128 + rate % 128) as u8, (rate / 128) as u8]);
    } else {
        assert(c =~= seq![
            1u8,
            (128 + rate % 128) as u8,
            (128 + rate / 128 % 128) as u8,
            (rate / 16384) as u8,
        ]);
    }
}

// ---------------------------------------------------------------------------
// Frames
// ---------------------------------------------------------------------------

/// One sample of an unpacked batch.
pub open spec fn sample_bytes(s: Sample) -> Seq<u8> {
    varint(zigzag(s.ch0.0 as int)) + varint(zigzag(s.ch1.0 as int)) + seq![s.flags] + varint(
        s.tick as nat,
    )
}

pub open spec fn samples_bytes(s: Seq<Sample>) -> Seq<u8>
    decreases s.len(),
{
    if s.len() == 0 {
        seq![]
    } else {
        samples_bytes(s.drop_last()) + sample_bytes(s.last())
    }
}

/// The payload of a frame.
pub open spec fn frame_bytes(f: FrameView) -> Seq<u8> {
    match f {
        FrameView::Data { seq, sample_rate, pga, samples } => varint(0) + varint(seq.0 as nat)
            + varint(sample_rate.0 as nat) + seq![pga] + varint(samples.len()) + samples_bytes(
            samples,
        ),
        FrameView::DataPacked { seq, sample_rate, pga, base_tick, packed } => varint(1) + varint(
            seq.0 as nat,
        ) + varint(sample_rate.0 as nat) + seq![pga] + varint(base_tick as nat) + varint(
            packed.len(),
        ) + packed,
        FrameView::Keyphasor { tick } => varint(2) + varint(tick as nat),
    }
}

/// The byte that `s` starts with, and the bytes behind it.
pub open spec fn read_u8(s: Seq<u8>) -> Option<(u8, Seq<u8>)> {
    if s.len() > 0 {
        Some((s[0], s.skip(1)))
    } else {
        None
    }
}

/// The sample that `s` starts with, and the bytes behind it.
pub open spec fn read_sample(s: Seq<u8>) -> Option<(Sample, Seq<u8>)> {
    if let Some((ch0, s1)) = read_u32(s) {
        if let Some((ch1, s2)) = read_u32(s1) {
            if let Some((flags, s3)) = read_u8(s2) {
                if let Some((tick, s4)) = read_u64(s3) {
                    Some(
                        (
                            Sample {
                                ch0: AdcCount(unzigzag(ch0) as i32),
                                ch1: AdcCount(unzigzag(ch1) as i32),
                                flags,
                                tick: tick as u64,
                            },
                            s4,
                        ),
                    )
                } else {
                    None
                }
            } else {
                None
            }
        } else {
            None
        }
    } else {
        None
    }
}

/// The first `n` samples of `s`, and the bytes behind them.
pub open spec fn read_samples(s: Seq<u8>, n: nat) -> Option<(Seq<Sample>, Seq<u8>)>
    decreases n,
{
    if n == 0 {
        Some((seq![], s))
    } else {
        match read_samples(s, (n - 1) as nat) {
            Some((samples, rest)) => match read_sample(rest) {
                Some((x, rest)) => Some((samples.push(x), rest)),
                None => None,
            },
            None => None,
        }
    }
}

/// The fields that both kinds of batch start with: number, rate and gain.
pub open spec fn read_batch_head(s: Seq<u8>) -> Option<(PacketSeq, SampleRateHz, u8, Seq<u8>)> {
    if let Some((seq, s1)) = read_u32(s) {
        if let Some((rate, s2)) = read_u16(s1) {
            if let Some((pga, s3)) = read_u8(s2) {
                Some((PacketSeq(seq as u32), SampleRateHz(rate as u16), pga, s3))
            } else {
                None
            }
        } else {
            None
        }
    } else {
        None
    }
}

/// The frame that a payload starts with. What follows it is ignored.
pub open spec fn read_frame(s: Seq<u8>) -> Option<FrameView> {
    match read_u32(s) {
        None => None,
        Some((tag, s0)) => if tag == 0 {
            read_data(s0)
        } else if tag == 1 {
            read_data_packed(s0)
        } else if tag == 2 {
            match read_u64(s0) {
                Some((tick, _)) => Some(FrameView::Keyphasor { tick: tick as u64 }),
                None => None,
            }
        } else {
            None
        },
    }
}

pub open spec fn read_data(s: Seq<u8>) -> Option<FrameView> {
    if let Some((seq, sample_rate, pga, s1)) = read_batch_head(s) {
        if let Some((n, s2)) = read_u64(s1) {
            if let Some((samples, _)) = read_samples(s2, n) {
                Some(FrameView::Data { seq, sample_rate, pga, samples })
            } else {
                None
            }
        } else {
            None
        }
    } else {
        None
    }
}

pub open spec fn read_data_packed(s: Seq<u8>) -> Option<FrameView> {
    if let Some((seq, sample_rate, pga, s1)) = read_batch_head(s) {
        if let Some((base_tick, s2)) = read_u64(s1) {
            if let Some((n, s3)) = read_u64(s2) {
                if n <= s3.len() {
                    Some(
                        FrameView::DataPacked {
                            seq,
                            sample_rate,
                            pga,
                            base_tick: base_tick as u64,
                            packed: s3.take(n as int),
                        },
                    )
                } else {
                    None
                }
            } else {
                None
            }
        } else {
            None
        }
    } else {
        None
    }
}

fn append_uint(out: &mut Vec<u8>, v: u64)
    ensures
        final(out)@ == old(out)@ + varint(v as nat),
{
    let mut field = postcard_uint(v);
    out.append(&mut field);
}

fn append_sample(out: &mut Vec<u8>, s: Sample)
    ensures
        final(out)@ == old(out)@ + sample_bytes(s),
{
    let mut ch0 = postcard_i32(s.ch0.0);
    let mut ch1 = postcard_i32(s.ch1.0);
    out.append(&mut ch0);
    out.append(&mut ch1);
    out.push(s.flags);
    append_uint(out, s.tick);
    assert(out@ =~= old(out)@ + sample_bytes(s));
}

fn append_bytes(out: &mut Vec<u8>, s: &[u8])
    ensures
        final(out)@ == old(out)@ + s@,
{
    for i in 0..s.len()
        invariant
            out@ == old(out)@ + s@.take(i as int),
    {
        out.push(s[i]);
        assert(out@ =~= old(out)@ + s@.take(i + 1));
    }
    assert(s@.take(s@.len() as int) =~= s@);
}

/// Writes the payload of a frame.
pub fn encode_frame(f: &Frame<'_>) -> (r: Vec<u8>)
    ensures
        r@ == frame_bytes(f@),
{
    let mut out: Vec<u8> = Vec::new();
    match f {
        Frame::Data(p) => {
            append_uint(&mut out, 0);
            append_uint(&mut out, p.seq.0 as u64);
            append_uint(&mut out, p.sample_rate.0 as u64);
            out.push(p.pga);
            append_uint(&mut out, p.samples.len() as u64);
            let ghost head = out@;
            for i in 0..p.samples.len()
                invariant
                    out@ == head + samples_bytes(p.samples@.take(i as int)),
            {
                append_sample(&mut out, p.samples[i]);
                assert(p.samples@.take(i + 1).drop_last() =~= p.samples@.take(i as int));
                assert(out@ =~= head + samples_bytes(p.samples@.take(i + 1)));
            }
            assert(p.samples@.take(p.samples@.len() as int) =~= p.samples@);
            assert(out@ =~= frame_bytes(f@));
        },
        Frame::DataPacked(p) => {
            append_uint(&mut out, 1);
            append_uint(&mut out, p.seq.0 as u64);
            append_uint(&mut out, p.sample_rate.0 as u64);
            out.push(p.pga);
            append_uint(&mut out, p.base_tick);
            append_uint(&mut out, p.samples.len() as u64);
            append_bytes(&mut out, p.samples);
            assert(out@ =~= frame_bytes(f@));
        },
        Frame::Keyphasor(e) => {
            append_uint(&mut out, 2);
            append_uint(&mut out, e.tick);
            assert(out@ =~= frame_bytes(f@));
        },
    }
    out
}

fn take_u8<'a>(s: &'a [u8]) -> (r: Option<(u8, &'a [u8])>)
    ensures
        match r {
            Some((v, rest)) => read_u8(s@) == Some((v, rest@)),
            None => read_u8(s@) is None,
        },
{
    if s.len() > 0 {
        let (_, rest) = s.split_at(1);
        Some((s[0], rest))
    } else {
        None
    }
}

fn take_sample<'a>(s: &'a [u8]) -> (r: Option<(Sample, &'a [u8])>)
    ensures
        match r {
            Some((v, rest)) => read_sample(s@) == Some((v, rest@)),
            None => read_sample(s@) is None,
        },
{
    if let Some((ch0, s1)) = postcard_take_i32(s) {
        if let Some((ch1, s2)) = postcard_take_i32(s1) {
            if let Some((flags, s3)) = take_u8(s2) {
                if let Some((tick, s4)) = postcard_take_u64(s3) {
                    return Some((Sample { ch0: AdcCount(ch0), ch1: AdcCount(ch1), flags, tick }, s4));
                }
            }
        }
    }
    None
}

fn take_batch_head<'a>(s: &'a [u8]) -> (r: Option<(PacketSeq, SampleRateHz, u8, &'a [u8])>)
    ensures
        match r {
            Some((seq, rate, pga, rest)) => read_batch_head(s@) == Some((seq, rate, pga, rest@)),
            None => read_batch_head(s@) is None,
        },
{
    if let Some((seq, s1)) = postcard_take_u32(s) {
        if let Some((rate, s2)) = postcard_take_u16(s1) {
            if let Some((pga, s3)) = take_u8(s2) {
                return Some((PacketSeq(seq), SampleRateHz(rate), pga, s3));
            }
        }
    }
    None
}

/// Reading more samples fails where reading fewer has failed.
proof fn lemma_read_samples_none(s: Seq<u8>, n: nat, m: nat)
    requires
        read_samples(s, n) is None,
        n <= m,
    ensures
        read_samples(s, m) is None,
    decreases m,
{
    if n < m {
        lemma_read_samples_none(s, n, (m - 1) as nat);
    }
}

fn take_data(s: &[u8]) -> (r: Option<PacketOwned>)
    ensures
        match r {
            Some(p) => read_data(s@) == Some(FrameOwned::Data(p)@),
            None => read_data(s@) is None,
        },
{
    let (seq, sample_rate, pga, s1) = match take_batch_head(s) {
        Some(head) => head,
        None => {
            return None;
        },
    };
    let (n, s2) = match postcard_take_u64(s1) {
        Some(field) => field,
        None => {
            return None;
        },
    };
    let mut samples: Vec<Sample> = Vec::new();
    let mut rest: &[u8] = s2;
    let mut i: u64 = 0;
    while i < n
        invariant
            i <= n,
            read_samples(s2@, i as nat) == Some((samples@, rest@)),
            read_batch_head(s@) == Some((seq, sample_rate, pga, s1@)),
            read_u64(s1@) == Some((n as nat, s2@)),
        decreases n - i,
    {
        match take_sample(rest) {
            Some((x, tail)) => {
                samples.push(x);
                rest = tail;
            },
            None => {
                assert(read_samples(s2@, (i + 1) as nat) is None);
                proof {
                    lemma_read_samples_none(s2@, (i + 1) as nat, n as nat);
                }
                return None;
            },
        }
        i = i + 1;
    }
    Some(PacketOwned { seq, sample_rate, pga, samples })
}

fn take_data_packed(s: &[u8]) -> (r: Option<PackedPacketOwned>)
    ensures
        match r {
            Some(p) => read_data_packed(s@) == Some(FrameOwned::DataPacked(p)@),
            None => read_data_packed(s@) is None,
        },
{
    if let Some((seq, sample_rate, pga, s1)) = take_batch_head(s) {
        if let Some((base_tick, s2)) = postcard_take_u64(s1) {
            if let Some((n, s3)) = postcard_take_u64(s2) {
                if n <= s3.len() as u64 {
                    let (body, _) = s3.split_at(n as usize);
                    let mut samples: Vec<u8> = Vec::new();
                    append_bytes(&mut samples, body);
                    assert(samples@ =~= s3@.take(n as int));
                    return Some(PackedPacketOwned { seq, sample_rate, pga, base_tick, samples });
                }
            }
        }
    }
    None
}

/// Reads a frame from a payload.
pub fn decode_frame(s: &[u8]) -> (r: Option<FrameOwned>)
    ensures
        match r {
            Some(f) => read_frame(s@) == Some(f@),
            None => read_frame(s@) is None,
        },
{
    match postcard_take_u32(s) {
        None => None,
        Some((tag, rest)) => {
            if tag == 0 {
                match take_data(rest) {
                    Some(p) => Some(FrameOwned::Data(p)),
                    None => None,
                }
            } else if tag == 1 {
                match take_data_packed(rest) {
                    Some(p) => Some(FrameOwned::DataPacked(p)),
                    None => None,
                }
            } else if tag == 2 {
                match postcard_take_u64(rest) {
                    Some((tick, _)) => Some(FrameOwned::Keyphasor(KpEvent { tick })),
                    None => None,
                }
            } else {
                None
            }
        },
    }
}

/// Reading one written sample gives the sample and what stood behind it.
proof fn lemma_sample_read_back(x: Sample, rest: Seq<u8>)
    ensures
        read_sample(sample_bytes(x) + rest) == Some((x, rest)),
{
    let a = varint(zigzag(x.ch0.0 as int));
    let b = varint(zigzag(x.ch1.0 as int));
    let c = seq![x.flags];
    let d = varint(x.tick as nat);
    law_zigzag_inverse(x.ch0.0 as int);
    law_zigzag_inverse(x.ch1.0 as int);
    law_u32_read_back(zigzag(x.ch0.0 as int) as u32, b + c + d + rest);
    law_u32_read_back(zigzag(x.ch1.0 as int) as u32, c + d + rest);
    law_u64_read_back(x.tick, rest);
    assert(sample_bytes(x) + rest =~= a + (b + c + d + rest));
    assert(b + c + d + rest =~= b + (c + d + rest));
    assert((c + d + rest).skip(1) =~= d + rest);
}

proof fn lemma_samples_read_back(x: Seq<Sample>, rest: Seq<u8>)
    ensures
        read_samples(samples_bytes(x) + rest, x.len()) == Some((x, rest)),
    decreases x.len(),
{
    if x.len() > 0 {
        let tail = sample_bytes(x.last()) + rest;
        lemma_samples_read_back(x.drop_last(), tail);
        lemma_sample_read_back(x.last(), rest);
        assert(samples_bytes(x) + rest =~= samples_bytes(x.drop_last()) + tail);
        assert(x.drop_last().push(x.last()) =~= x);
    }
}

proof fn lemma_batch_head_read_back(seq: PacketSeq, rate: SampleRateHz, pga: u8, rest: Seq<u8>)
    ensures
        read_batch_head(varint(seq.0 as nat) + varint(rate.0 as nat) + seq![pga] + rest) == Some(
            (seq, rate, pga, rest),
        ),
{
    let a = varint(seq.0 as nat);
    let b = varint(rate.0 as nat);
    let c = seq![pga];
    law_u32_read_back(seq.0, b + c + rest);
    law_u16_read_back(rate.0, c + rest);
    assert(a + b + c + rest =~= a + (b + c + rest));
    assert(b + c + rest =~= b + (c + rest));
    assert((c + rest).skip(1) =~= rest);
}

proof fn lemma_data_read_back(
    seq: PacketSeq,
    sample_rate: SampleRateHz,
    pga: u8,
    samples: Seq<Sample>,
    rest: Seq<u8>,
)
    requires
        samples.len() <= u64::MAX,
    ensures
        read_data(
            varint(seq.0 as nat) + varint(sample_rate.0 as nat) + seq![pga] + (varint(
                samples.len(),
            ) + (samples_bytes(samples) + rest)),
        ) == Some(FrameView::Data { seq, sample_rate, pga, samples }),
{
    let tail = samples_bytes(samples) + rest;
    lemma_batch_head_read_back(seq, sample_rate, pga, varint(samples.len()) + tail);
    law_u64_read_back(samples.len() as u64, tail);
    lemma_samples_read_back(samples, rest);
}

proof fn lemma_data_packed_read_back(
    seq: PacketSeq,
    sample_rate: SampleRateHz,
    pga: u8,
    base_tick: u64,
    packed: Seq<u8>,
    rest: Seq<u8>,
)
    requires
        packed.len() <= u64::MAX,
    ensures
        read_data_packed(
            varint(seq.0 as nat) + varint(sample_rate.0 as nat) + seq![pga] + (varint(
                base_tick as nat,
            ) + (varint(packed.len()) + (packed + rest))),
        ) == Some(FrameView::DataPacked { seq, sample_rate, pga, base_tick, packed }),
{
    let s2 = varint(packed.len()) + (packed + rest);
    lemma_batch_head_read_back(seq, sample_rate, pga, varint(base_tick as nat) + s2);
    law_u64_read_back(base_tick, s2);
    law_u64_read_back(packed.len() as u64, packed + rest);
    assert((packed + rest).take(packed.len() as int) =~= packed);
}

/// A frame that was written is read back. (Sequences longer than a length field
/// can say do not occur.)
#[verifier::spinoff_prover]
pub proof fn law_frame_read_back(f: FrameView, rest: Seq<u8>)
    requires
        f matches FrameView::Data { samples, .. } ==> samples.len() <= u64::MAX,
        f matches FrameView::DataPacked { packed, .. } ==> packed.len() <= u64::MAX,
    ensures
        read_frame(frame_bytes(f) + rest) == Some(f),
{
    let s = frame_bytes(f) + rest;
    match f {
        FrameView::Data { seq, sample_rate, pga, samples } => {
            let s0 = varint(seq.0 as nat) + varint(sample_rate.0 as nat) + seq![pga] + (varint(
                samples.len(),
            ) + (samples_bytes(samples) + rest));
            assert(s =~= varint(0) + s0);
            law_u32_read_back(0, s0);
            lemma_data_read_back(seq, sample_rate, pga, samples, rest);
        },
        FrameView::DataPacked { seq, sample_rate, pga, base_tick, packed } => {
            let s0 = varint(seq.0 as nat) + varint(sample_rate.0 as nat) + seq![pga] + (varint(
                base_tick as nat,
            ) + (varint(packed.len()) + (packed + rest)));
            assert(s =~= varint(1) + s0);
            law_u32_read_back(1, s0);
            lemma_data_packed_read_back(seq, sample_rate, pga, base_tick, packed, rest);
        },
        FrameView::Keyphasor { tick } => {
            law_u32_read_back(2, varint(tick as nat) + rest);
            law_u64_read_back(tick, rest);
            assert(s =~= varint(2) + (varint(tick as nat) + rest));
        },
    }
}

/// A frame starts with its kind: 0 for a batch of both channels, 1 for a packed one, 2 for an
/// edge. In a batch the number, the rate and the gain follow, which are one byte each where
/// they are below 128, and the samples of a packed batch are what it ends with.
pub proof fn law_frames_on_the_wire(f: FrameView)
    ensures
        frame_bytes(f).len() > 0,
        frame_bytes(f)[0] == match f {
            FrameView::Data { .. } => 0int,
            FrameView::DataPacked { .. } => 1,
            FrameView::Keyphasor { .. } => 2,
        },
        f matches FrameView::Data { seq, sample_rate, pga, samples } ==> seq.0 < 128
            && sample_rate.0 < 128 ==> {
            let b = frame_bytes(f);
            &&& b.len() >= 5 && b[1] == seq.0 && b[2] == sample_rate.0 && b[3] == pga
            &&& samples.len() < 128 ==> b[4] == samples.len()
        },
        f matches FrameView::DataPacked { seq, sample_rate, pga, base_tick, packed } ==> {
            let b = frame_bytes(f);
            &&& b.len() >= packed.len() && b.skip(b.len() - packed.len()) == packed
            &&& seq.0 < 128 && sample_rate.0 < 128 && base_tick < 128 && packed.len() < 128
                ==> b.len() == 6 + packed.len() && b[1] == seq.0 && b[2] == sample_rate.0 && b[3]
                == pga && b[4] == base_tick && b[5] == packed.len()
        },
        f matches FrameView::Keyphasor { tick } ==> tick < 128 ==> frame_bytes(f) == seq![
            2u8,
            tick as u8,
        ],
{
    assert(varint(0) =~= seq![0u8] && varint(1) =~= seq![1u8] && varint(2) =~= seq![2u8]);
    match f {
        FrameView::Data { samples, .. } => {
            law_varint_shape(samples.len());
        },
        FrameView::DataPacked { packed, .. } => {
            let b = frame_bytes(f);
            assert(b.skip(b.len() - packed.len()) =~= packed);
        },
        FrameView::Keyphasor { tick } => {
            if tick < 128 {
                assert(frame_bytes(f) =~= seq![2u8, tick as u8]);
            }
        },
    }
}

/// In a sample of an unpacked batch the first channel comes before the second, then the flags
/// and the tick.
pub proof fn law_samples_on_the_wire(s: Sample)
    requires
        0 <= s.ch0.0 < 64,
        0 <= s.ch1.0 < 64,
        s.tick < 128,
    ensures
        sample_bytes(s) == seq![
            (s.ch0.0 + s.ch0.0) as u8,
            (s.ch1.0 + s.ch1.0) as u8,
            s.flags,
            s.tick as u8,
        ],
{
    assert(sample_bytes(s) =~= seq![
        (s.ch0.0 + s.ch0.0) as u8,
        (s.ch1.0 + s.ch1.0) as u8,
        s.flags,
        s.tick as u8,
    ]);
}

/// The longest payload that the front end's send buffer holds.
pub const MAX_SENT_PAYLOAD: usize = 4092;

/// Every frame that the front end sends fits its send buffer: a keyphasor edge,
/// and a packed batch of at most [`MAX_PACKED_BATCH_SIZE`] bytes.
pub proof fn law_sent_frames_fit(f: FrameView)
    requires
        f is DataPacked || f is Keyphasor,
        f matches FrameView::DataPacked { packed, .. } ==> packed.len() <= MAX_PACKED_BATCH_SIZE,
    ensures
        1 <= frame_bytes(f).len() <= MAX_SENT_PAYLOAD,
{
    law_u32_read_back(1, seq![]);
    law_u32_read_back(2, seq![]);
    match f {
        FrameView::Data { .. } => {},
        FrameView::DataPacked { seq, sample_rate, pga, base_tick, packed } => {
            law_u32_read_back(seq.0, seq![]);
            law_u16_read_back(sample_rate.0, seq![]);
            law_u64_read_back(base_tick, seq![]);
            law_u64_read_back(packed.len() as u64, seq![]);
        },
        FrameView::Keyphasor { tick } => {
            law_u64_read_back(tick, seq![]);
        },
    }
}

/// Nothing is read of nothing, and a kind alone is neither a command nor a frame.
pub proof fn law_nothing_is_read_of_nothing(kind: u8)
    requires
        kind < 128,
    ensures
        read_command(seq![]) is None,
        read_frame(seq![]) is None,
        read_command(seq![kind]) is None,
        read_frame(seq![kind]) is None,
        read_u8(seq![]) is None,
        read_u8(seq![kind]) == Some((kind, Seq::<u8>::empty())),
{
    let s: Seq<u8> = seq![kind];
    assert(s.skip(1) =~= Seq::<u8>::empty());
    reveal_with_fuel(read_varint, 2);
}

// ---------------------------------------------------------------------------
// Framing
// ---------------------------------------------------------------------------

/// A payload length as it stands in front of the payload.
pub open spec fn header_bytes(n: nat) -> Seq<u8> {
    seq![
        (n / 0x100_0000 % 256) as u8,
        (n / 0x1_0000 % 256) as u8,
        (n / 0x100 % 256) as u8,
        (n % 256) as u8,
    ]
}

/// The payload length that the first four bytes of `s` give.
pub open spec fn header_value(s: Seq<u8>) -> nat {
    (s[0] * 0x100_0000 + s[1] * 0x1_0000 + s[2] * 0x100 + s[3]) as nat
}

/// A payload behind its length.
pub open spec fn framed(payload: Seq<u8>) -> Seq<u8> {
    header_bytes(payload.len()) + payload
}

/// The length in front of a framed payload is the length of the payload.
pub proof fn law_header_read_back(payload: Seq<u8>, rest: Seq<u8>)
    requires
        payload.len() <= u32::MAX,
    ensures
        header_value(framed(payload) + rest) == payload.len(),
        (framed(payload) + rest).subrange(
            HEADER_SIZE as int,
            HEADER_SIZE + payload.len() as int,
        ) == payload,
        framed(payload).len() == HEADER_SIZE + payload.len(),
{
    let n = payload.len();
    let s = framed(payload) + rest;
    assert(s.subrange(4, 4 + n as int) =~= payload);
    assert(s.take(4) =~= header_bytes(n));
    assert(s[0] == (n / 0x100_0000 % 256) as u8);
    assert(s[1] == (n / 0x1_0000 % 256) as u8);
    assert(s[2] == (n / 0x100 % 256) as u8);
    assert(s[3] == (n % 256) as u8);
}

/// The length has its highest byte first: the first byte in which two lengths differ decides
/// which is greater.
pub proof fn law_header_highest_byte_first(s: Seq<u8>, t: Seq<u8>)
    requires
        s.len() == 4,
        t.len() == 4,
    ensures
        s[0] < t[0] ==> header_value(s) < header_value(t),
        s[0] == t[0] && s[1] < t[1] ==> header_value(s) < header_value(t),
        s[0] == t[0] && s[1] == t[1] && s[2] < t[2] ==> header_value(s) < header_value(t),
        s[0] == t[0] && s[1] == t[1] && s[2] == t[2] && s[3] < t[3] ==> header_value(s)
            < header_value(t),
{
}

/// A length below 256 is the last of its four bytes.
pub proof fn law_header_of_a_short_payload(n: u8)
    ensures
        header_bytes(n as nat) == seq![0u8, 0u8, 0u8, n],
{
    assert(header_bytes(n as nat) =~= seq![0u8, 0u8, 0u8, n]);
}

/// Reads the payload length from the first four bytes of `s`.
pub fn parse_header(s: &[u8]) -> (n: u32)
    requires
        s@.len() >= HEADER_SIZE,
    ensures
        n == header_value(s@),
{
    s[0] as u32 * 0x100_0000 + s[1] as u32 * 0x1_0000 + s[2] as u32 * 0x100 + s[3] as u32
}

fn frame_payload(payload: &Vec<u8>) -> (r: Vec<u8>)
    requires
        payload@.len() <= u32::MAX,
    ensures
        r@ == framed(payload@),
{
    let n: u32 = payload.len() as u32;
    let mut out: Vec<u8> = Vec::new();
    out.push((n / 0x100_0000) as u8);
    out.push((n / 0x1_0000 % 256) as u8);
    out.push((n / 0x100 % 256) as u8);
    out.push((n % 256) as u8);
    assert(out@ =~= header_bytes(payload@.len()));
    append_bytes(&mut out, payload.as_slice());
    out
}

/// The bytes that put a frame on the wire.
pub fn frame_to_wire(f: &Frame<'_>) -> (r: Vec<u8>)
    requires
        frame_bytes(f@).len() <= MAX_SENT_PAYLOAD,
    ensures
        r@ == framed(frame_bytes(f@)),
{
    let payload = encode_frame(f);
    frame_payload(&payload)
}

/// The bytes that put a command on the wire.
pub fn command_to_wire(c: Command) -> (r: Vec<u8>)
    ensures
        r@ == framed(command_bytes(c)),
        6 <= r@.len() <= 8,
{
    let payload = encode_command(c);
    frame_payload(&payload)
}

} // verus!
