//! Newtypes for the quantities that travel between the parts of the system.

use crate::text::{append_decimal, decimal, decimal_text, signed_decimal};
use std::cmp::Ordering;
use vstd::prelude::*;
use vstd::std_specs::cmp::{PartialEqSpecImpl, PartialOrdIs, PartialOrdSpecImpl};
use vstd::std_specs::convert::{FromSpec, FromSpecImpl};

verus! {

/// A raw converter reading, in least significant bits.
#[derive(Debug, Clone, Copy, PartialEq, Eq, Ord, Hash, Default, Structural)]
pub struct AdcCount(pub i32);

impl AdcCount {
    /// The value 0.
    pub fn zero() -> (r: AdcCount)
        ensures
            r == AdcCount(0),
    {
        AdcCount(0)
    }

    /// The reading as a plain integer.
    pub fn as_i32(self) -> (r: i32)
        ensures
            r == self.0,
    {
        self.0
    }

    /// The reading in decimal.
    pub fn text(self) -> (r: String)
        ensures
            r@ == signed_decimal(self.0 as int),
    {
        if self.0 >= 0 {
            decimal_text(self.0 as u64)
        } else {
            let mut out = String::from_str("-");
            append_decimal(&mut out, (-(self.0 as i64)) as u64);
            out
        }
    }
}

impl From<i32> for AdcCount {
    fn from(value: i32) -> (r: Self) {
        AdcCount(value)
    }
}

impl FromSpecImpl<i32> for AdcCount {
    open spec fn obeys_from_spec() -> bool {
        true
    }

    open spec fn from_spec(value: i32) -> Self {
        AdcCount(value)
    }
}

impl PartialOrd for AdcCount {
    fn partial_cmp(&self, other: &Self) -> (r: Option<Ordering>) {
        if self.0 < other.0 {
            Some(Ordering::Less)
        } else if self.0 == other.0 {
            Some(Ordering::Equal)
        } else {
            Some(Ordering::Greater)
        }
    }
}

impl PartialOrdSpecImpl for AdcCount {
    open spec fn obeys_partial_cmp_spec() -> bool {
        true
    }

    open spec fn partial_cmp_spec(&self, other: &Self) -> Option<Ordering> {
        if self.0 < other.0 {
            Some(Ordering::Less)
        } else if self.0 == other.0 {
            Some(Ordering::Equal)
        } else {
            Some(Ordering::Greater)
        }
    }
}

/// The number of a packet within the stream.
#[derive(Debug, Clone, Copy, PartialEq, Eq, Ord, Hash, Default, Structural)]
pub struct PacketSeq(pub u32);

impl PacketSeq {
    /// The value 0.
    pub fn zero() -> (r: PacketSeq)
        ensures
            r == PacketSeq(0),
    {
        PacketSeq(0)
    }

    /// The number as a plain integer.
    pub fn as_u32(self) -> (r: u32)
        ensures
            r == self.0,
    {
        self.0
    }

    /// The number in decimal.
    pub fn text(self) -> (r: String)
        ensures
            r@ == decimal(self.0 as nat),
    {
        decimal_text(self.0 as u64)
    }
}

impl From<u32> for PacketSeq {
    fn from(value: u32) -> (r: Self) {
        PacketSeq(value)
    }
}

impl FromSpecImpl<u32> for PacketSeq {
    open spec fn obeys_from_spec() -> bool {
        true
    }

    open spec fn from_spec(value: u32) -> Self {
        PacketSeq(value)
    }
}

impl PartialOrd for PacketSeq {
    fn partial_cmp(&self, other: &Self) -> (r: Option<Ordering>) {
        if self.0 < other.0 {
            Some(Ordering::Less)
        } else if self.0 == other.0 {
            Some(Ordering::Equal)
        } else {
            Some(Ordering::Greater)
        }
    }
}

impl PartialOrdSpecImpl for PacketSeq {
    open spec fn obeys_partial_cmp_spec() -> bool {
        true
    }

    open spec fn partial_cmp_spec(&self, other: &Self) -> Option<Ordering> {
        if self.0 < other.0 {
            Some(Ordering::Less)
        } else if self.0 == other.0 {
            Some(Ordering::Equal)
        } else {
            Some(Ordering::Greater)
        }
    }
}

/// A sample rate, in samples per second.
#[derive(Debug, Clone, Copy, PartialEq, Eq, Ord, Hash, Default, Structural)]
pub struct SampleRateHz(pub u16);

impl SampleRateHz {
    /// The value 0.
    pub fn zero() -> (r: SampleRateHz)
        ensures
            r == SampleRateHz(0),
    {
        SampleRateHz(0)
    }

    /// The rate as a plain integer.
    pub fn as_u16(self) -> (r: u16)
        ensures
            r == self.0,
    {
        self.0
    }

    /// The rate in decimal.
    pub fn text(self) -> (r: String)
        ensures
            r@ == decimal(self.0 as nat),
    {
        decimal_text(self.0 as u64)
    }
}

impl From<u16> for SampleRateHz {
    fn from(value: u16) -> (r: Self) {
        SampleRateHz(value)
    }
}

impl FromSpecImpl<u16> for SampleRateHz {
    open spec fn obeys_from_spec() -> bool {
        true
    }

    open spec fn from_spec(value: u16) -> Self {
        SampleRateHz(value)
    }
}

impl PartialEq<u16> for SampleRateHz {
    fn eq(&self, other: &u16) -> (r: bool) {
        self.0 == *other
    }
}

impl PartialEqSpecImpl<u16> for SampleRateHz {
    open spec fn obeys_eq_spec() -> bool {
        true
    }

    open spec fn eq_spec(&self, other: &u16) -> bool {
        self.0 == *other
    }
}

impl PartialOrd for SampleRateHz {
    fn partial_cmp(&self, other: &Self) -> (r: Option<Ordering>) {
        if self.0 < other.0 {
            Some(Ordering::Less)
        } else if self.0 == other.0 {
            Some(Ordering::Equal)
        } else {
            Some(Ordering::Greater)
        }
    }
}

impl PartialOrdSpecImpl for SampleRateHz {
    open spec fn obeys_partial_cmp_spec() -> bool {
        true
    }

    open spec fn partial_cmp_spec(&self, other: &Self) -> Option<Ordering> {
        if self.0 < other.0 {
            Some(Ordering::Less)
        } else if self.0 == other.0 {
            Some(Ordering::Equal)
        } else {
            Some(Ordering::Greater)
        }
    }
}

/// The position of a sample within a block.
#[derive(Debug, Clone, Copy, PartialEq, Eq, Ord, Hash, Default, Structural)]
pub struct SampleIndex(pub usize);

impl SampleIndex {
    /// The value 0.
    pub fn zero() -> (r: SampleIndex)
        ensures
            r == SampleIndex(0),
    {
        SampleIndex(0)
    }

    /// The position as a plain integer.
    pub fn as_usize(self) -> (r: usize)
        ensures
            r == self.0,
    {
        self.0
    }

    /// The position in decimal.
    pub fn text(self) -> (r: String)
        ensures
            r@ == decimal(self.0 as nat),
    {
        decimal_text(self.0 as u64)
    }
}

impl From<usize> for SampleIndex {
    fn from(value: usize) -> (r: Self) {
        SampleIndex(value)
    }
}

impl FromSpecImpl<usize> for SampleIndex {
    open spec fn obeys_from_spec() -> bool {
        true
    }

    open spec fn from_spec(value: usize) -> Self {
        SampleIndex(value)
    }
}

impl PartialEq<usize> for SampleIndex {
    fn eq(&self, other: &usize) -> (r: bool) {
        self.0 == *other
    }
}

impl PartialEqSpecImpl<usize> for SampleIndex {
    open spec fn obeys_eq_spec() -> bool {
        true
    }

    open spec fn eq_spec(&self, other: &usize) -> bool {
        self.0 == *other
    }
}

impl PartialOrd for SampleIndex {
    fn partial_cmp(&self, other: &Self) -> (r: Option<Ordering>) {
        if self.0 < other.0 {
            Some(Ordering::Less)
        } else if self.0 == other.0 {
            Some(Ordering::Equal)
        } else {
            Some(Ordering::Greater)
        }
    }
}

impl PartialOrdSpecImpl for SampleIndex {
    open spec fn obeys_partial_cmp_spec() -> bool {
        true
    }

    open spec fn partial_cmp_spec(&self, other: &Self) -> Option<Ordering> {
        if self.0 < other.0 {
            Some(Ordering::Less)
        } else if self.0 == other.0 {
            Some(Ordering::Equal)
        } else {
            Some(Ordering::Greater)
        }
    }
}

/// A number of samples.
#[derive(Debug, Clone, Copy, PartialEq, Eq, Ord, Hash, Default, Structural)]
pub struct SampleCount(pub usize);

impl SampleCount {
    /// The value 0.
    pub fn zero() -> (r: SampleCount)
        ensures
            r == SampleCount(0),
    {
        SampleCount(0)
    }

    /// The number as a plain integer.
    pub fn as_usize(self) -> (r: usize)
        ensures
            r == self.0,
    {
        self.0
    }

    /// The number in decimal.
    pub fn text(self) -> (r: String)
        ensures
            r@ == decimal(self.0 as nat),
    {
        decimal_text(self.0 as u64)
    }
}

impl From<usize> for SampleCount {
    fn from(value: usize) -> (r: Self) {
        SampleCount(value)
    }
}

impl FromSpecImpl<usize> for SampleCount {
    open spec fn obeys_from_spec() -> bool {
        true
    }

    open spec fn from_spec(value: usize) -> Self {
        SampleCount(value)
    }
}

impl PartialOrd for SampleCount {
    fn partial_cmp(&self, other: &Self) -> (r: Option<Ordering>) {
        if self.0 < other.0 {
            Some(Ordering::Less)
        } else if self.0 == other.0 {
            Some(Ordering::Equal)
        } else {
            Some(Ordering::Greater)
        }
    }
}

impl PartialOrdSpecImpl for SampleCount {
    open spec fn obeys_partial_cmp_spec() -> bool {
        true
    }

    open spec fn partial_cmp_spec(&self, other: &Self) -> Option<Ordering> {
        if self.0 < other.0 {
            Some(Ordering::Less)
        } else if self.0 == other.0 {
            Some(Ordering::Equal)
        } else {
            Some(Ordering::Greater)
        }
    }
}

/// Positions stand for integers: one is read back from the other both ways, and positions
/// are in the order of their integers.
pub proof fn law_index_is_its_integer(v: usize, a: SampleIndex, b: SampleIndex)
    ensures
        <SampleIndex as FromSpec<usize>>::from_spec(v).0 == v,
        <SampleIndex as FromSpec<usize>>::from_spec(a.0) == a,
        a.is_lt(&b) <==> a.0 < b.0,
        a.is_le(&b) <==> a.0 <= b.0,
{
}

/// So do numbers of samples.
pub proof fn law_count_is_its_integer(v: usize, a: SampleCount, b: SampleCount)
    ensures
        <SampleCount as FromSpec<usize>>::from_spec(v).0 == v,
        <SampleCount as FromSpec<usize>>::from_spec(a.0) == a,
        a.is_lt(&b) <==> a.0 < b.0,
        a.is_le(&b) <==> a.0 <= b.0,
{
}

/// So do readings, which may be below 0.
pub proof fn law_reading_is_its_integer(v: i32, a: AdcCount, b: AdcCount)
    ensures
        <AdcCount as FromSpec<i32>>::from_spec(v).0 == v,
        <AdcCount as FromSpec<i32>>::from_spec(a.0) == a,
        a.is_lt(&b) <==> a.0 < b.0,
        a.is_le(&b) <==> a.0 <= b.0,
{
}

/// So do the numbers of packets.
pub proof fn law_packet_number_is_its_integer(v: u32, a: PacketSeq, b: PacketSeq)
    ensures
        <PacketSeq as FromSpec<u32>>::from_spec(v).0 == v,
        <PacketSeq as FromSpec<u32>>::from_spec(a.0) == a,
        a.is_lt(&b) <==> a.0 < b.0,
        a.is_le(&b) <==> a.0 <= b.0,
{
}

/// So do sample rates.
pub proof fn law_rate_is_its_integer(v: u16, a: SampleRateHz, b: SampleRateHz)
    ensures
        <SampleRateHz as FromSpec<u16>>::from_spec(v).0 == v,
        <SampleRateHz as FromSpec<u16>>::from_spec(a.0) == a,
        a.is_lt(&b) <==> a.0 < b.0,
        a.is_le(&b) <==> a.0 <= b.0,
{
}

} // verus!
