//! The waveform core: encoding a transmission into an ordered train of line
//! operations (level settings and timed holds), and driving an output line
//! through that train.

use vstd::prelude::*;
use crate::{ProtocolProperties, Transmission};

verus! {

/// The three symbol classes of a sequence character: a binary one, a binary
/// zero, or a sync marker (any other character). The classification is
/// total; no character is rejected.
#[derive(Debug, Copy, Clone, PartialEq, Eq, Structural)]
pub enum Symbol {
    One,
    Zero,
    Sync,
}

/// One operation on the output line: either drive it to a level (true is
/// high, false is low), or hold the present level for a number of
/// microseconds.
#[derive(Debug, Copy, Clone, PartialEq, Eq, Structural)]
pub enum LineOp {
    SetLevel(bool),
    Hold(u64),
}

/// The sole failure of the core: the output line could not be driven.
#[derive(Debug, Copy, Clone, PartialEq, Eq, Structural)]
pub enum LineError {
    DeviceUnavailable,
    PermissionDenied,
    Busy,
    Unsupported,
}

/// The symbol class of a sequence character.
pub open spec fn spec_classify(c: char) -> Symbol {
    if c == '1' {
        Symbol::One
    } else if c == '0' {
        Symbol::Zero
    } else {
        Symbol::Sync
    }
}

/// Classifies one sequence character into its symbol class.
pub fn classify(c: char) -> (s: Symbol)
    ensures
        s == spec_classify(c),
{
    if c == '1' {
        Symbol::One
    } else if c == '0' {
        Symbol::Zero
    } else {
        Symbol::Sync
    }
}

/// The timing multiplier of a symbol's high phase.
pub open spec fn high_factor(s: Symbol, p: ProtocolProperties) -> u8 {
    match s {
        Symbol::One => p.long,
        Symbol::Zero => p.short,
        Symbol::Sync => p.sync_bit,
    }
}

/// The timing multiplier of a symbol's low phase.
pub open spec fn low_factor(s: Symbol, p: ProtocolProperties) -> u8 {
    match s {
        Symbol::One => p.short,
        Symbol::Zero => p.long,
        Symbol::Sync => p.sync_gap,
    }
}

/// The pair of phase durations, in microseconds, that one sequence
/// character produces: the high phase first, then the low phase.
pub open spec fn spec_phase_durations(c: char, pulse_length: u16, p: ProtocolProperties) -> (
    u64,
    u64,
) {
    let s = spec_classify(c);
    (
        (pulse_length as int * high_factor(s, p) as int) as u64,
        (pulse_length as int * low_factor(s, p) as int) as u64,
    )
}

/// Computes the pair of phase durations of one sequence character: high
/// phase first, then low phase. A binary one is a long pulse with a short
/// pause, a binary zero a short pulse with a long pause, and a sync marker
/// a sync-bit pulse with a sync-gap pause.
pub fn phase_durations(c: char, pulse_length: u16, p: ProtocolProperties) -> (d: (u64, u64))
    ensures
        d == spec_phase_durations(c, pulse_length, p),
{
    let s = classify(c);
    let hi: u8 = match s {
        Symbol::One => p.long,
        Symbol::Zero => p.short,
        Symbol::Sync => p.sync_bit,
    };
    let lo: u8 = match s {
        Symbol::One => p.short,
        Symbol::Zero => p.long,
        Symbol::Sync => p.sync_gap,
    };
    proof {
        assert(pulse_length as int * hi as int <= 65535 * 255) by (nonlinear_arith)
            requires
                pulse_length <= 65535,
                hi <= 255,
        ;
        assert(pulse_length as int * lo as int <= 65535 * 255) by (nonlinear_arith)
            requires
                pulse_length <= 65535,
                lo <= 255,
        ;
    }
    (pulse_length as u64 * hi as u64, pulse_length as u64 * lo as u64)
}

/// The four line operations that emit one sequence character: raise the
/// line, hold the high phase, lower the line, hold the low phase.
pub open spec fn symbol_ops(c: char, pulse_length: u16, p: ProtocolProperties) -> Seq<LineOp> {
    let d = spec_phase_durations(c, pulse_length, p);
    seq![
        LineOp::SetLevel(true),
        LineOp::Hold(d.0),
        LineOp::SetLevel(false),
        LineOp::Hold(d.1),
    ]
}

/// The line operations of one pass over a character sequence, in order.
pub open spec fn pass_ops(cs: Seq<char>, pulse_length: u16, p: ProtocolProperties) -> Seq<LineOp>
    decreases cs.len(),
{
    if cs.len() == 0 {
        Seq::empty()
    } else {
        symbol_ops(cs[0], pulse_length, p) + pass_ops(cs.drop_first(), pulse_length, p)
    }
}

/// The line operations of `r` passes over a character sequence, one after
/// the other with no interleaving.
pub open spec fn repeat_ops(
    cs: Seq<char>,
    pulse_length: u16,
    p: ProtocolProperties,
    r: nat,
) -> Seq<LineOp>
    decreases r,
{
    if r == 0 {
        Seq::empty()
    } else {
        pass_ops(cs, pulse_length, p) + repeat_ops(cs, pulse_length, p, (r - 1) as nat)
    }
}

/// The full ordered train of line operations of a transmission: its
/// sequence, encoded character by character, repeated `repeats` times.
pub open spec fn transmission_ops(t: Transmission) -> Seq<LineOp> {
    repeat_ops(t.sequence@, t.pulse_length, t.protocol, t.repeats as nat)
}

/// The number of level settings in a train of line operations.
pub open spec fn level_set_count(ops: Seq<LineOp>) -> nat
    decreases ops.len(),
{
    if ops.len() == 0 {
        0
    } else {
        (if ops[0] is SetLevel {
            1nat
        } else {
            0nat
        }) + level_set_count(ops.drop_first())
    }
}

/// One pass distributes over concatenation of sequences.
proof fn lemma_pass_ops_concat(a: Seq<char>, b: Seq<char>, pulse_length: u16, p: ProtocolProperties)
    ensures
        pass_ops(a + b, pulse_length, p) == pass_ops(a, pulse_length, p) + pass_ops(
            b,
            pulse_length,
            p,
        ),
    decreases a.len(),
{
    if a.len() == 0 {
        assert(a + b =~= b);
        assert(pass_ops(a, pulse_length, p) + pass_ops(b, pulse_length, p) =~= pass_ops(
            b,
            pulse_length,
            p,
        ));
    } else {
        assert((a + b).drop_first() =~= a.drop_first() + b);
        lemma_pass_ops_concat(a.drop_first(), b, pulse_length, p);
        assert(pass_ops(a + b, pulse_length, p) =~= pass_ops(a, pulse_length, p) + pass_ops(
            b,
            pulse_length,
            p,
        ));
    }
}

/// Extending a pass by one character appends that character's operations.
proof fn lemma_pass_ops_snoc(cs: Seq<char>, i: int, pulse_length: u16, p: ProtocolProperties)
    requires
        0 <= i < cs.len(),
    ensures
        pass_ops(cs.take(i + 1), pulse_length, p) == pass_ops(cs.take(i), pulse_length, p)
            + symbol_ops(cs[i], pulse_length, p),
{
    let single = seq![cs[i]];
    assert(cs.take(i + 1) =~= cs.take(i) + single);
    lemma_pass_ops_concat(cs.take(i), single, pulse_length, p);
    assert(single.len() == 1);
    assert(single[0] == cs[i]);
    assert(single.drop_first() =~= Seq::<char>::empty());
    assert(pass_ops(single.drop_first(), pulse_length, p) =~= Seq::<LineOp>::empty());
    assert(pass_ops(single, pulse_length, p) == symbol_ops(single[0], pulse_length, p) + pass_ops(
        single.drop_first(),
        pulse_length,
        p,
    ));
    assert(pass_ops(single, pulse_length, p) =~= symbol_ops(cs[i], pulse_length, p));
}

/// One further repeat appends one further pass.
proof fn lemma_repeat_ops_snoc(cs: Seq<char>, pulse_length: u16, p: ProtocolProperties, r: nat)
    ensures
        repeat_ops(cs, pulse_length, p, r + 1) == repeat_ops(cs, pulse_length, p, r) + pass_ops(
            cs,
            pulse_length,
            p,
        ),
    decreases r,
{
    if r == 0 {
        assert(repeat_ops(cs, pulse_length, p, 1) =~= repeat_ops(cs, pulse_length, p, 0)
            + pass_ops(cs, pulse_length, p));
    } else {
        lemma_repeat_ops_snoc(cs, pulse_length, p, (r - 1) as nat);
        assert(repeat_ops(cs, pulse_length, p, r + 1) =~= repeat_ops(cs, pulse_length, p, r)
            + pass_ops(cs, pulse_length, p));
    }
}

/// Collects the characters of a string slice into a vector, in order.
fn chars_vec(s: &str) -> (v: Vec<char>)
    ensures
        v@ == s@,
{
    let mut v: Vec<char> = Vec::new();
    for c in it: s.chars()
        invariant
            it.seq() == s@,
            v@ == it.seq().take(it.index() as int),
    {
        v.push(c);
    }
    proof {
        assert(v@ =~= s@);
    }
    v
}

impl Transmission {
    /// Encodes the transmission into its full ordered train of line
    /// operations: for every repeat, and for every sequence character in
    /// order, a raised level, the high-phase hold, a lowered level, and the
    /// low-phase hold.
    pub fn events(&self) -> (v: Vec<LineOp>)
        ensures
            v@ == transmission_ops(*self),
    {
        let cs = chars_vec(self.sequence.as_str());
        let mut v: Vec<LineOp> = Vec::new();
        let mut r: u8 = 0;
        while r < self.repeats
            invariant
                r <= self.repeats,
                cs@ == self.sequence@,
                v@ == repeat_ops(cs@, self.pulse_length, self.protocol, r as nat),
            decreases self.repeats - r,
        {
            let mut i: usize = 0;
            while i < cs.len()
                invariant
                    i <= cs.len(),
                    cs@ == self.sequence@,
                    v@ == repeat_ops(cs@, self.pulse_length, self.protocol, r as nat) + pass_ops(
                        cs@.take(i as int),
                        self.pulse_length,
                        self.protocol,
                    ),
                decreases cs.len() - i,
            {
                let d = phase_durations(cs[i], self.pulse_length, self.protocol);
                v.push(LineOp::SetLevel(true));
                v.push(LineOp::Hold(d.0));
                v.push(LineOp::SetLevel(false));
                v.push(LineOp::Hold(d.1));
                proof {
                    lemma_pass_ops_snoc(cs@, i as int, self.pulse_length, self.protocol);
                    assert(v@ =~= repeat_ops(cs@, self.pulse_length, self.protocol, r as nat)
                        + pass_ops(cs@.take(i + 1 as int), self.pulse_length, self.protocol));
                }
                i = i + 1;
            }
            proof {
                assert(cs@.take(cs@.len() as int) =~= cs@);
                lemma_repeat_ops_snoc(cs@, self.pulse_length, self.protocol, r as nat);
            }
            r = r + 1;
        }
        v
    }
}

/// The level-set count of a concatenation is the sum of the counts.
proof fn lemma_level_set_count_concat(a: Seq<LineOp>, b: Seq<LineOp>)
    ensures
        level_set_count(a + b) == level_set_count(a) + level_set_count(b),
    decreases a.len(),
{
    if a.len() == 0 {
        assert(a + b =~= b);
    } else {
        assert((a + b).drop_first() =~= a.drop_first() + b);
        assert((a + b)[0] == a[0]);
        lemma_level_set_count_concat(a.drop_first(), b);
    }
}

/// One symbol's operations hold exactly two level settings.
proof fn lemma_symbol_ops_level_count(c: char, pulse_length: u16, p: ProtocolProperties)
    ensures
        level_set_count(symbol_ops(c, pulse_length, p)) == 2,
        symbol_ops(c, pulse_length, p).len() == 4,
{
    let d = spec_phase_durations(c, pulse_length, p);
    let s = symbol_ops(c, pulse_length, p);
    let s1 = s.drop_first();
    let s2 = s1.drop_first();
    let s3 = s2.drop_first();
    let s4 = s3.drop_first();
    assert(s1 =~= seq![LineOp::Hold(d.0), LineOp::SetLevel(false), LineOp::Hold(d.1)]);
    assert(s2 =~= seq![LineOp::SetLevel(false), LineOp::Hold(d.1)]);
    assert(s3 =~= seq![LineOp::Hold(d.1)]);
    assert(s4 =~= Seq::<LineOp>::empty());
    assert(level_set_count(s4) == 0);
    assert(level_set_count(s3) == 0);
    assert(level_set_count(s2) == 1);
    assert(level_set_count(s1) == 1);
    assert(level_set_count(s) == 2);
}

/// One pass over N characters holds exactly 2·N level settings.
proof fn lemma_pass_ops_level_count(cs: Seq<char>, pulse_length: u16, p: ProtocolProperties)
    ensures
        level_set_count(pass_ops(cs, pulse_length, p)) == 2 * cs.len(),
    decreases cs.len(),
{
    if cs.len() == 0 {
    } else {
        lemma_symbol_ops_level_count(cs[0], pulse_length, p);
        lemma_level_set_count_concat(
            symbol_ops(cs[0], pulse_length, p),
            pass_ops(cs.drop_first(), pulse_length, p),
        );
        lemma_pass_ops_level_count(cs.drop_first(), pulse_length, p);
    }
}

/// R passes over N characters hold exactly 2·N·R level settings.
proof fn lemma_repeat_ops_level_count(
    cs: Seq<char>,
    pulse_length: u16,
    p: ProtocolProperties,
    r: nat,
)
    ensures
        level_set_count(repeat_ops(cs, pulse_length, p, r)) == 2 * cs.len() * r,
    decreases r,
{
    if r == 0 {
    } else {
        lemma_pass_ops_level_count(cs, pulse_length, p);
        lemma_level_set_count_concat(
            pass_ops(cs, pulse_length, p),
            repeat_ops(cs, pulse_length, p, (r - 1) as nat),
        );
        lemma_repeat_ops_level_count(cs, pulse_length, p, (r - 1) as nat);
        assert(2 * cs.len() + 2 * cs.len() * ((r - 1) as nat) == 2 * cs.len() * r)
            by (nonlinear_arith)
            requires
                r >= 1,
        ;
    }
}

/// Law: a transmission with zero repeats encodes to an empty operation
/// train, so its emission drives the line zero times and must succeed.
pub proof fn lemma_zero_repeats_no_ops(t: Transmission)
    requires
        t.repeats == 0,
    ensures
        transmission_ops(t) == Seq::<LineOp>::empty(),
{
}

/// Law: a transmission over an empty sequence encodes to an empty
/// operation train, whatever its repeat count.
pub proof fn lemma_empty_sequence_no_ops(t: Transmission)
    requires
        t.sequence@.len() == 0,
    ensures
        transmission_ops(t) == Seq::<LineOp>::empty(),
{
    lemma_repeat_ops_len(t.sequence@, t.pulse_length, t.protocol, t.repeats as nat);
    assert(transmission_ops(t) =~= Seq::<LineOp>::empty());
}

/// The length of the operation train: four operations per character, per
/// repeat.
proof fn lemma_repeat_ops_len(cs: Seq<char>, pulse_length: u16, p: ProtocolProperties, r: nat)
    ensures
        repeat_ops(cs, pulse_length, p, r).len() == 4 * cs.len() * r,
    decreases r,
{
    if r == 0 {
        assert(repeat_ops(cs, pulse_length, p, r).len() == 0);
        assert(4 * cs.len() * r == 0) by (nonlinear_arith)
            requires
                r == 0,
        ;
    } else {
        lemma_pass_ops_len(cs, pulse_length, p);
        lemma_repeat_ops_len(cs, pulse_length, p, (r - 1) as nat);
        assert(repeat_ops(cs, pulse_length, p, r).len() == 4 * cs.len() + 4 * cs.len() * ((r
            - 1) as nat));
        assert(4 * cs.len() + 4 * cs.len() * ((r - 1) as nat) == 4 * cs.len() * r)
            by (nonlinear_arith)
            requires
                r >= 1,
        ;
    }
}

/// The length of one pass: four operations per character.
proof fn lemma_pass_ops_len(cs: Seq<char>, pulse_length: u16, p: ProtocolProperties)
    ensures
        pass_ops(cs, pulse_length, p).len() == 4 * cs.len(),
    decreases cs.len(),
{
    if cs.len() == 0 {
    } else {
        lemma_pass_ops_len(cs.drop_first(), pulse_length, p);
    }
}

/// Law: the operation train of a transmission with sequence length N and
/// repeat count R holds exactly 2·N·R level settings — two per symbol —
/// and 4·N·R operations in all.
pub proof fn lemma_level_set_calls(t: Transmission)
    ensures
        level_set_count(transmission_ops(t)) == 2 * t.sequence@.len() * (t.repeats as nat),
        transmission_ops(t).len() == 4 * t.sequence@.len() * (t.repeats as nat),
{
    lemma_repeat_ops_level_count(t.sequence@, t.pulse_length, t.protocol, t.repeats as nat);
    lemma_repeat_ops_len(t.sequence@, t.pulse_length, t.protocol, t.repeats as nat);
}

/// Law: the phase-duration pair of one character follows the protocol
/// table. A binary one gives (pulse_length·long, pulse_length·short), a
/// binary zero gives (pulse_length·short, pulse_length·long), and any
/// other character gives (pulse_length·sync_bit, pulse_length·sync_gap).
pub proof fn lemma_phase_duration_table(c: char, pulse_length: u16, p: ProtocolProperties)
    ensures
        c == '1' ==> spec_phase_durations(c, pulse_length, p) == ((
            (pulse_length as int * p.long as int) as u64,
            (pulse_length as int * p.short as int) as u64,
        )),
        c == '0' ==> spec_phase_durations(c, pulse_length, p) == ((
            (pulse_length as int * p.short as int) as u64,
            (pulse_length as int * p.long as int) as u64,
        )),
        c != '1' && c != '0' ==> spec_phase_durations(c, pulse_length, p) == ((
            (pulse_length as int * p.sync_bit as int) as u64,
            (pulse_length as int * p.sync_gap as int) as u64,
        )),
{
}

/// Law: encoding is a pure function of the transmission's value. Two
/// transmissions that agree on sequence, pulse length, repeats and
/// protocol encode to the same ordered operation train.
pub proof fn lemma_encoding_deterministic(a: Transmission, b: Transmission)
    requires
        a.sequence@ == b.sequence@,
        a.pulse_length == b.pulse_length,
        a.repeats == b.repeats,
        a.protocol == b.protocol,
    ensures
        transmission_ops(a) == transmission_ops(b),
{
}

/// An injected output capability: a digital line that can be driven high or
/// low and held at its level for a time. The emitter treats it purely as a
/// sink; `ops` is the full record of the operations it has received, the
/// failing ones included.
pub trait OutputLine {
    /// The ordered record of every operation this output has received.
    spec fn ops(&self) -> Seq<LineOp>;

    /// Drives the line to the given level: true is high, false is low.
    /// A failure still counts as a received operation.
    fn set_level(&mut self, level: bool) -> (r: Result<(), LineError>)
        ensures
            final(self).ops() == old(self).ops().push(LineOp::SetLevel(level)),
    ;

    /// Holds the present level for the given number of microseconds.
    fn hold(&mut self, micros: u64)
        ensures
            final(self).ops() == old(self).ops().push(LineOp::Hold(micros)),
    ;
}

impl Transmission {
    /// Drives an output line through the whole transmission: every repeat,
    /// and within it every sequence character, as one raised level, the
    /// high-phase hold, one lowered level, and the low-phase hold, strictly
    /// in order. A failure of the output aborts at once: the failing level
    /// setting is the last operation the output receives, and the fault is
    /// returned verbatim.
    pub fn emit<L: OutputLine>(&self, line: &mut L) -> (r: Result<(), LineError>)
        ensures
            r is Ok ==> final(line).ops() == old(line).ops() + transmission_ops(*self),
            r is Err ==> exists|n: int|
                0 < n <= transmission_ops(*self).len() && transmission_ops(*self)[n - 1]
                    is SetLevel && final(line).ops() == old(line).ops() + transmission_ops(
                    *self,
                ).take(n),
            transmission_ops(*self).len() == 0 ==> r is Ok,
    {
        let ops = self.events();
        let ghost plan = transmission_ops(*self);
        let mut i: usize = 0;
        while i < ops.len()
            invariant
                i <= ops.len(),
                ops@ == plan,
                plan == transmission_ops(*self),
                line.ops() == old(line).ops() + plan.take(i as int),
            decreases ops.len() - i,
        {
            let op = ops[i];
            match op {
                LineOp::SetLevel(level) => {
                    let res = line.set_level(level);
                    proof {
                        assert(plan.take(i as int).push(LineOp::SetLevel(level)) =~= plan.take(
                            i + 1 as int,
                        ));
                    }
                    if let Err(fault) = res {
                        return Err(fault);
                    }
                },
                LineOp::Hold(micros) => {
                    line.hold(micros);
                    proof {
                        assert(plan.take(i as int).push(LineOp::Hold(micros)) =~= plan.take(
                            i + 1 as int,
                        ));
                    }
                },
            }
            i = i + 1;
        }
        proof {
            assert(plan.take(ops@.len() as int) =~= plan);
        }
        Ok(())
    }
}

/// An output line that records every operation it receives and never fails.
pub struct RecordingLine {
    pub received: Vec<LineOp>,
}

impl RecordingLine {
    /// A recording line that has received nothing yet.
    pub fn new() -> (l: RecordingLine)
        ensures
            l.received@ == Seq::<LineOp>::empty(),
    {
        RecordingLine { received: Vec::new() }
    }
}

impl OutputLine for RecordingLine {
    open spec fn ops(&self) -> Seq<LineOp> {
        self.received@
    }

    fn set_level(&mut self, level: bool) -> (r: Result<(), LineError>)
        ensures
            r is Ok,
    {
        self.received.push(LineOp::SetLevel(level));
        Ok(())
    }

    fn hold(&mut self, micros: u64) {
        self.received.push(LineOp::Hold(micros));
    }
}

/// An output line that records every operation, and fails with a fixed
/// fault on one chosen level setting: the one whose one-based rank among
/// the level settings equals `fail_on`. With `fail_on` zero it never fails.
pub struct FaultyLine {
    pub received: Vec<LineOp>,
    pub fail_on: usize,
    pub fault: LineError,
    pub level_calls: usize,
}

impl FaultyLine {
    /// A line that fails with the given fault on the level setting of the
    /// given one-based rank.
    pub fn new(fail_on: usize, fault: LineError) -> (l: FaultyLine)
        ensures
            l.received@ == Seq::<LineOp>::empty(),
            l.fail_on == fail_on,
            l.fault == fault,
            l.level_calls == 0,
    {
        FaultyLine { received: Vec::new(), fail_on, fault, level_calls: 0 }
    }
}

impl OutputLine for FaultyLine {
    open spec fn ops(&self) -> Seq<LineOp> {
        self.received@
    }

    fn set_level(&mut self, level: bool) -> (r: Result<(), LineError>)
        ensures
            final(self).fail_on == old(self).fail_on,
            final(self).fault == old(self).fault,
            final(self).level_calls == (if old(self).level_calls < usize::MAX {
                old(self).level_calls + 1
            } else {
                old(self).level_calls as int
            }),
            r is Err <==> final(self).level_calls == old(self).fail_on,
            r is Err ==> r == Err::<(), LineError>(old(self).fault),
    {
        if self.level_calls < usize::MAX {
            self.level_calls = self.level_calls + 1;
        }
        self.received.push(LineOp::SetLevel(level));
        if self.level_calls == self.fail_on {
            Err(self.fault)
        } else {
            Ok(())
        }
    }

    fn hold(&mut self, micros: u64) {
        self.received.push(LineOp::Hold(micros));
    }
}

} // verus!
