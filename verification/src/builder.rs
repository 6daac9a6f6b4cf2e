//! Assemble a transmission or a protocol with chained builder calls. The
//! builders enforce nothing: every field starts at its default and any
//! value is accepted; the build step copies the accumulated fields into
//! the immutable value type.

use vstd::prelude::*;
use crate::{ProtocolProperties, Transmission};

verus! {

/// Accumulates the fields of a `Transmission`: an empty sequence and zeros
/// until set otherwise.
pub struct TransmissionBuilder {
    pub sequence: String,
    pub pulse_length: u16,
    pub repeats: u8,
    pub protocol: ProtocolProperties,
}

impl TransmissionBuilder {
    /// A builder with default values: an empty sequence and zeros.
    pub fn new() -> (b: TransmissionBuilder)
        ensures
            b.sequence@ == Seq::<char>::empty(),
            b.pulse_length == 0,
            b.repeats == 0,
            b.protocol == (ProtocolProperties { short: 0, long: 0, sync_bit: 0, sync_gap: 0 }),
    {
        TransmissionBuilder {
            sequence: String::new(),
            pulse_length: 0,
            repeats: 0,
            protocol: ProtocolProperties::new(),
        }
    }

    /// Sets the symbolic sequence: literal '0' and '1' characters for the
    /// binary symbols; any other character yields a sync bit.
    pub fn sequence(self, seq: &str) -> (b: TransmissionBuilder)
        ensures
            b.sequence@ == seq@,
            b.pulse_length == self.pulse_length,
            b.repeats == self.repeats,
            b.protocol == self.protocol,
    {
        TransmissionBuilder {
            sequence: seq.to_owned(),
            pulse_length: self.pulse_length,
            repeats: self.repeats,
            protocol: self.protocol,
        }
    }

    /// Sets the pulse length, the smallest time unit of the transmission,
    /// in microseconds.
    pub fn pulse_length(self, pl: u16) -> (b: TransmissionBuilder)
        ensures
            b.sequence@ == self.sequence@,
            b.pulse_length == pl,
            b.repeats == self.repeats,
            b.protocol == self.protocol,
    {
        TransmissionBuilder {
            sequence: self.sequence,
            pulse_length: pl,
            repeats: self.repeats,
            protocol: self.protocol,
        }
    }

    /// Sets the number of repeats.
    pub fn repeats(self, rep: u8) -> (b: TransmissionBuilder)
        ensures
            b.sequence@ == self.sequence@,
            b.pulse_length == self.pulse_length,
            b.repeats == rep,
            b.protocol == self.protocol,
    {
        TransmissionBuilder {
            sequence: self.sequence,
            pulse_length: self.pulse_length,
            repeats: rep,
            protocol: self.protocol,
        }
    }

    /// Sets the protocol: the multiples of the pulse length that resemble
    /// a binary one or zero and the sync bit and sync gap.
    pub fn protocol(self, pr: ProtocolProperties) -> (b: TransmissionBuilder)
        ensures
            b.sequence@ == self.sequence@,
            b.pulse_length == self.pulse_length,
            b.repeats == self.repeats,
            b.protocol == pr,
    {
        TransmissionBuilder {
            sequence: self.sequence,
            pulse_length: self.pulse_length,
            repeats: self.repeats,
            protocol: pr,
        }
    }

    /// Finalizes the build: copies the accumulated fields into a
    /// `Transmission`.
    pub fn build(&self) -> (t: Transmission)
        ensures
            t.sequence@ == self.sequence@,
            t.pulse_length == self.pulse_length,
            t.repeats == self.repeats,
            t.protocol == self.protocol,
    {
        Transmission {
            sequence: self.sequence.clone(),
            pulse_length: self.pulse_length,
            repeats: self.repeats,
            protocol: self.protocol,
        }
    }
}

impl Default for TransmissionBuilder {
    fn default() -> (b: Self)
        ensures
            b.sequence@ == Seq::<char>::empty(),
            b.pulse_length == 0,
            b.repeats == 0,
            b.protocol == (ProtocolProperties { short: 0, long: 0, sync_bit: 0, sync_gap: 0 }),
    {
        TransmissionBuilder::new()
    }
}

/// Accumulates the fields of a `ProtocolProperties`: every multiplier is
/// zero until set otherwise.
pub struct ProtocolBuilder {
    pub short: u8,
    pub long: u8,
    pub sync_bit: u8,
    pub sync_gap: u8,
}

impl ProtocolBuilder {
    /// A builder with every multiplier zero.
    pub fn new() -> (b: Self)
        ensures
            b.short == 0,
            b.long == 0,
            b.sync_bit == 0,
            b.sync_gap == 0,
    {
        ProtocolBuilder { short: 0, long: 0, sync_bit: 0, sync_gap: 0 }
    }

    /// Sets the factor of a short pulse.
    pub fn short(self, short: u8) -> (b: Self)
        ensures
            b.short == short,
            b.long == self.long,
            b.sync_bit == self.sync_bit,
            b.sync_gap == self.sync_gap,
    {
        ProtocolBuilder { short, long: self.long, sync_bit: self.sync_bit, sync_gap: self.sync_gap }
    }

    /// Sets the factor of a long pulse.
    pub fn long(self, long: u8) -> (b: Self)
        ensures
            b.short == self.short,
            b.long == long,
            b.sync_bit == self.sync_bit,
            b.sync_gap == self.sync_gap,
    {
        ProtocolBuilder { short: self.short, long, sync_bit: self.sync_bit, sync_gap: self.sync_gap }
    }

    /// Sets the factor of the sync-bit pulse.
    pub fn sync_bit(self, sync_bit: u8) -> (b: Self)
        ensures
            b.short == self.short,
            b.long == self.long,
            b.sync_bit == sync_bit,
            b.sync_gap == self.sync_gap,
    {
        ProtocolBuilder { short: self.short, long: self.long, sync_bit, sync_gap: self.sync_gap }
    }

    /// Sets the factor of the sync-gap pause.
    pub fn sync_gap(self, sync_gap: u8) -> (b: Self)
        ensures
            b.short == self.short,
            b.long == self.long,
            b.sync_bit == self.sync_bit,
            b.sync_gap == sync_gap,
    {
        ProtocolBuilder { short: self.short, long: self.long, sync_bit: self.sync_bit, sync_gap }
    }

    /// Finalizes the build: copies the accumulated multipliers into a
    /// `ProtocolProperties`.
    pub fn build(&self) -> (p: ProtocolProperties)
        ensures
            p == (ProtocolProperties {
                short: self.short,
                long: self.long,
                sync_bit: self.sync_bit,
                sync_gap: self.sync_gap,
            }),
    {
        ProtocolProperties {
            short: self.short,
            long: self.long,
            sync_bit: self.sync_bit,
            sync_gap: self.sync_gap,
        }
    }
}

impl Default for ProtocolBuilder {
    fn default() -> (b: Self)
        ensures
            b.short == 0,
            b.long == 0,
            b.sync_bit == 0,
            b.sync_gap == 0,
    {
        ProtocolBuilder::new()
    }
}

} // verus!
