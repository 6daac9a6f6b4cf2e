//! Generate radio control signals: a symbolic bit sequence together with a
//! timing profile is turned into an ordered train of (level, duration)
//! pulses suitable for driving an on-off-keyed transmitter module.

use vstd::prelude::*;

pub mod builder;
pub mod codec;
pub mod signal;

use crate::builder::{ProtocolBuilder, TransmissionBuilder};

verus! {

/// The four unitless timing multipliers that define a transmission
/// protocol. Each one is later multiplied by the pulse length of a
/// transmission to obtain a phase duration in microseconds.
///
/// Usually a short pulse with a long pause resembles a binary zero,
/// and a long pulse followed by a short pause resembles a binary one.
/// A sync bit / sync gap combination marks the beginning of the
/// transmission.
#[derive(Debug, Copy, Clone, PartialEq, Eq, Structural)]
pub struct ProtocolProperties {
    pub short: u8,
    pub long: u8,
    pub sync_bit: u8,
    pub sync_gap: u8,
}

impl ProtocolProperties {
    /// A custom protocol with every multiplier set to zero.
    pub fn new() -> (p: Self)
        ensures
            p == (ProtocolProperties { short: 0, long: 0, sync_bit: 0, sync_gap: 0 }),
    {
        ProtocolProperties { short: 0, long: 0, sync_bit: 0, sync_gap: 0 }
    }

    /// A builder that assembles a protocol field by field.
    pub fn builder() -> (b: ProtocolBuilder)
        ensures
            b.short == 0,
            b.long == 0,
            b.sync_bit == 0,
            b.sync_gap == 0,
    {
        ProtocolBuilder::new()
    }
}

/// The most common remote-control protocol: a short factor of 1, a long
/// factor of 3, a sync bit of 1 and a sync gap of 31.
pub fn protocol_one() -> (p: ProtocolProperties)
    ensures
        p == (ProtocolProperties { short: 1, long: 3, sync_bit: 1, sync_gap: 31 }),
{
    ProtocolProperties { short: 1, long: 3, sync_bit: 1, sync_gap: 31 }
}

/// A second common remote-control protocol: a short factor of 1, a long
/// factor of 2, a sync bit of 1 and a sync gap of 10.
pub fn protocol_two() -> (p: ProtocolProperties)
    ensures
        p == (ProtocolProperties { short: 1, long: 2, sync_bit: 1, sync_gap: 10 }),
{
    ProtocolProperties { short: 1, long: 2, sync_bit: 1, sync_gap: 10 }
}

/// The protocol of the 'Gmornxen' remote-controlled socket switches, very
/// close to the second common protocol.
pub fn xen() -> (p: ProtocolProperties)
    ensures
        p == (ProtocolProperties { short: 1, long: 2, sync_bit: 1, sync_gap: 11 }),
{
    ProtocolProperties { short: 1, long: 2, sync_bit: 1, sync_gap: 11 }
}

impl Default for ProtocolProperties {
    fn default() -> (p: Self)
        ensures
            p == (ProtocolProperties { short: 0, long: 0, sync_bit: 0, sync_gap: 0 }),
    {
        ProtocolProperties { short: 0, long: 0, sync_bit: 0, sync_gap: 0 }
    }
}

/// A transmission: a sequence of symbolic characters, the base time unit of
/// the signal in microseconds (the pulse length), the number of repeats,
/// and the timing protocol.
///
/// The binary sequence is represented by a string of literal '0' and '1'
/// characters; every other character stands for a sync marker. That way a
/// signal can be composed simply by concatenating strings.
#[derive(Debug)]
pub struct Transmission {
    pub sequence: String,
    pub pulse_length: u16,
    pub repeats: u8,
    pub protocol: ProtocolProperties,
}

impl Transmission {
    /// A transmission with an empty sequence and every number zero.
    pub fn new() -> (t: Self)
        ensures
            t.sequence@ == Seq::<char>::empty(),
            t.pulse_length == 0,
            t.repeats == 0,
            t.protocol == (ProtocolProperties { short: 0, long: 0, sync_bit: 0, sync_gap: 0 }),
    {
        Transmission {
            sequence: String::new(),
            pulse_length: 0,
            repeats: 0,
            protocol: ProtocolProperties::new(),
        }
    }

    /// A builder that assembles a transmission field by field.
    pub fn builder() -> (b: TransmissionBuilder)
        ensures
            b.sequence@ == Seq::<char>::empty(),
            b.pulse_length == 0,
            b.repeats == 0,
            b.protocol == (ProtocolProperties { short: 0, long: 0, sync_bit: 0, sync_gap: 0 }),
    {
        TransmissionBuilder::new()
    }

    /// Replaces the symbolic sequence; the other fields keep their values.
    pub fn sequence(&mut self, seq: &str)
        ensures
            final(self).sequence@ == seq@,
            final(self).pulse_length == old(self).pulse_length,
            final(self).repeats == old(self).repeats,
            final(self).protocol == old(self).protocol,
    {
        self.sequence = seq.to_owned();
    }
}

impl Default for Transmission {
    fn default() -> (t: Self)
        ensures
            t.sequence@ == Seq::<char>::empty(),
            t.pulse_length == 0,
            t.repeats == 0,
            t.protocol == (ProtocolProperties { short: 0, long: 0, sync_bit: 0, sync_gap: 0 }),
    {
        Transmission::new()
    }
}

impl Clone for Transmission {
    fn clone(&self) -> (t: Self)
        ensures
            t == *self,
    {
        Transmission {
            sequence: self.sequence.clone(),
            pulse_length: self.pulse_length,
            repeats: self.repeats,
            protocol: self.protocol,
        }
    }
}

impl PartialEq for Transmission {
    fn eq(&self, other: &Self) -> (r: bool) {
        self.sequence == other.sequence && self.pulse_length == other.pulse_length
            && self.repeats == other.repeats && self.protocol == other.protocol
    }
}

impl vstd::std_specs::cmp::PartialEqSpecImpl for Transmission {
    open spec fn obeys_eq_spec() -> bool {
        true
    }

    open spec fn eq_spec(&self, other: &Self) -> bool {
        self.sequence@ == other.sequence@ && self.pulse_length == other.pulse_length
            && self.repeats == other.repeats && self.protocol == other.protocol
    }
}

} // verus!
