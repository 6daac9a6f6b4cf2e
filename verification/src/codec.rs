//! The flat record format of a transmission: a comma-separated ASCII
//! rendering of the sequence and the six numeric fields, meant for handing
//! a transmission off to a secondary microcontroller, and a parser that
//! recovers the fields from such a record.

use vstd::prelude::*;
use vstd::string::StrSliceExecFns;
use vstd::utf8::{encode_utf8, decode_utf8};
use crate::Transmission;

verus! {

/// The comma that separates the fields of a flat record.
pub const FIELD_SEPARATOR: u8 = 44;

/// The ASCII byte of one decimal digit.
pub open spec fn dec_digit(n: nat) -> u8 {
    (48 + n) as u8
}

/// The decimal ASCII rendering of a number: most significant digit first,
/// no sign, no leading zeros (a single zero digit for zero).
pub open spec fn dec_bytes(n: nat) -> Seq<u8>
    decreases n,
{
    if n < 10 {
        seq![dec_digit(n)]
    } else {
        dec_bytes(n / 10).push(dec_digit(n % 10))
    }
}

/// True of an ASCII decimal digit byte.
pub open spec fn is_dec_digit(b: u8) -> bool {
    48 <= b <= 57
}

/// True when every byte of the field is a decimal digit.
pub open spec fn all_dec_digits(s: Seq<u8>) -> bool {
    forall|i: int| 0 <= i < s.len() ==> is_dec_digit(s[i])
}

/// The numeric value of a decimal digit field, leading zeros allowed.
pub open spec fn dec_value(s: Seq<u8>) -> int
    decreases s.len(),
{
    if s.len() == 0 {
        0
    } else {
        dec_value(s.drop_last()) * 10 + (s.last() - 48)
    }
}

/// A decimal rendering is never empty and holds digits only.
proof fn lemma_dec_bytes_shape(n: nat)
    ensures
        dec_bytes(n).len() >= 1,
        all_dec_digits(dec_bytes(n)),
    decreases n,
{
    if n < 10 {
        assert(is_dec_digit(dec_bytes(n)[0]));
    } else {
        lemma_dec_bytes_shape(n / 10);
        assert forall|i: int| 0 <= i < dec_bytes(n).len() implies is_dec_digit(
            dec_bytes(n)[i],
        ) by {
            if i < dec_bytes(n / 10).len() {
                assert(dec_bytes(n)[i] == dec_bytes(n / 10)[i]);
            } else {
                assert(dec_bytes(n)[i] == dec_digit(n % 10));
            }
        }
    }
}

/// Reading back a decimal rendering yields the number it renders.
proof fn lemma_dec_round_trip(n: nat)
    ensures
        dec_value(dec_bytes(n)) == n,
    decreases n,
{
    if n < 10 {
        assert(dec_bytes(n).drop_last() =~= Seq::<u8>::empty());
        assert(dec_bytes(n).last() == dec_digit(n));
        assert(dec_value(dec_bytes(n)) == dec_value(Seq::<u8>::empty()) * 10 + (dec_digit(n)
            - 48));
        assert(dec_value(dec_bytes(n)) == n);
    } else {
        lemma_dec_round_trip(n / 10);
        assert(dec_bytes(n).drop_last() =~= dec_bytes(n / 10));
        assert(dec_bytes(n).last() == dec_digit(n % 10));
        assert(n % 10 < 10);
        assert(dec_digit(n % 10) - 48 == n % 10);
        vstd::arithmetic::div_mod::lemma_fundamental_div_mod(n as int, 10);
        assert(dec_value(dec_bytes(n)) == dec_value(dec_bytes(n / 10)) * 10 + (dec_bytes(n).last()
            - 48));
    }
}

/// A digit field has a non-negative value.
proof fn lemma_dec_value_nonneg(s: Seq<u8>)
    requires
        all_dec_digits(s),
    ensures
        dec_value(s) >= 0,
    decreases s.len(),
{
    if s.len() > 0 {
        assert(all_dec_digits(s.drop_last()));
        lemma_dec_value_nonneg(s.drop_last());
    }
}

/// Reading further digits never lowers the value of a digit field.
proof fn lemma_dec_value_take_mono(s: Seq<u8>, j: int, k: int)
    requires
        all_dec_digits(s),
        0 <= j <= k <= s.len(),
    ensures
        dec_value(s.take(j)) <= dec_value(s.take(k)),
    decreases k - j,
{
    if j < k {
        lemma_dec_value_take_mono(s, j, k - 1);
        let a = s.take(k - 1);
        let b = s.take(k);
        assert(b.drop_last() =~= a);
        assert(all_dec_digits(a));
        lemma_dec_value_nonneg(a);
        assert(is_dec_digit(s[k - 1]));
        assert(b.last() == s[k - 1]);
        assert(dec_value(b) == dec_value(a) * 10 + (s[k - 1] - 48));
        assert(dec_value(a) * 10 >= dec_value(a));
    }
}

/// Renders a number as decimal ASCII bytes.
fn dec_of_u64(n: u64) -> (v: Vec<u8>)
    ensures
        v@ == dec_bytes(n as nat),
    decreases n,
{
    if n < 10 {
        let mut v: Vec<u8> = Vec::new();
        v.push(48 + n as u8);
        proof {
            assert(v@ =~= seq![dec_digit(n as nat)]);
        }
        v
    } else {
        let mut v = dec_of_u64(n / 10);
        v.push(48 + (n % 10) as u8);
        v
    }
}

/// Parses the decimal digit field `data[start..end]` into a number no
/// greater than `max`. Succeeds exactly when the field is non-empty,
/// holds digits only, and its value is within the bound.
fn parse_dec_range(data: &[u8], start: usize, end: usize, max: u64) -> (r: Option<u64>)
    requires
        start <= end <= data@.len(),
        max <= 65535,
    ensures
        r is Some <==> {
            let f = data@.subrange(start as int, end as int);
            f.len() > 0 && all_dec_digits(f) && dec_value(f) <= max
        },
        r matches Some(v) ==> v == dec_value(data@.subrange(start as int, end as int)),
{
    let ghost f = data@.subrange(start as int, end as int);
    if start == end {
        return None;
    }
    let mut acc: u64 = 0;
    let mut i: usize = start;
    while i < end
        invariant
            start <= i <= end <= data@.len(),
            max <= 65535,
            f == data@.subrange(start as int, end as int),
            all_dec_digits(f.take(i - start)),
            acc == dec_value(f.take(i - start)),
            acc <= max,
        decreases end - i,
    {
        let b = data[i];
        proof {
            assert(f[i - start] == data@[i as int]);
        }
        if b < 48 || b > 57 {
            proof {
                assert(!is_dec_digit(f[i - start]));
            }
            return None;
        }
        let d = (b - 48) as u64;
        let next = acc * 10 + d;
        proof {
            assert(f.take(i + 1 - start).drop_last() =~= f.take(i - start));
            assert(f.take(i + 1 - start).last() == f[i - start]);
        }
        if next > max {
            proof {
                if all_dec_digits(f) {
                    lemma_dec_value_take_mono(f, i + 1 - start, f.len() as int);
                    assert(f.take(f.len() as int) =~= f);
                }
            }
            return None;
        }
        acc = next;
        i = i + 1;
    }
    proof {
        assert(f.take(f.len() as int) =~= f);
    }
    Some(acc)
}

/// The flat record of a transmission, as bytes: the UTF-8 bytes of the
/// sequence text, then the six numeric fields in decimal, all comma
/// separated, in the fixed order
/// SEQUENCE,PULSE_LENGTH,REPEATS,SHORT,LONG,SYNC_BIT,SYNC_GAP.
pub open spec fn record_bytes(t: Transmission) -> Seq<u8> {
    encode_utf8(t.sequence@) + seq![FIELD_SEPARATOR] + dec_bytes(t.pulse_length as nat) + seq![
        FIELD_SEPARATOR,
    ] + dec_bytes(t.repeats as nat) + seq![FIELD_SEPARATOR] + dec_bytes(t.protocol.short as nat)
        + seq![FIELD_SEPARATOR] + dec_bytes(t.protocol.long as nat) + seq![FIELD_SEPARATOR]
        + dec_bytes(t.protocol.sync_bit as nat) + seq![FIELD_SEPARATOR] + dec_bytes(
        t.protocol.sync_gap as nat,
    )
}

impl Transmission {
    /// Renders the transmission as its flat comma-separated record. The
    /// sequence text is written raw — a comma inside it is not escaped —
    /// followed by the six numeric fields in decimal.
    pub fn csv_as_bytes(&self) -> (v: Vec<u8>)
        ensures
            v@ == record_bytes(*self),
    {
        let mut v: Vec<u8> = self.sequence.as_str().as_bytes_vec();
        v.push(FIELD_SEPARATOR);
        let mut f = dec_of_u64(self.pulse_length as u64);
        v.append(&mut f);
        v.push(FIELD_SEPARATOR);
        let mut f = dec_of_u64(self.repeats as u64);
        v.append(&mut f);
        v.push(FIELD_SEPARATOR);
        let mut f = dec_of_u64(self.protocol.short as u64);
        v.append(&mut f);
        v.push(FIELD_SEPARATOR);
        let mut f = dec_of_u64(self.protocol.long as u64);
        v.append(&mut f);
        v.push(FIELD_SEPARATOR);
        let mut f = dec_of_u64(self.protocol.sync_bit as u64);
        v.append(&mut f);
        v.push(FIELD_SEPARATOR);
        let mut f = dec_of_u64(self.protocol.sync_gap as u64);
        v.append(&mut f);
        proof {
            assert(v@ =~= record_bytes(*self));
        }
        v
    }
}

/// The index of the last comma of a byte sequence, if it has one.
pub open spec fn spec_last_comma(s: Seq<u8>) -> Option<int>
    decreases s.len(),
{
    if s.len() == 0 {
        None
    } else if s.last() == FIELD_SEPARATOR {
        Some(s.len() - 1)
    } else {
        spec_last_comma(s.drop_last())
    }
}

/// Splits off the final comma-separated field: everything before the last
/// comma, and everything after it.
pub open spec fn spec_split_tail(s: Seq<u8>) -> Option<(Seq<u8>, Seq<u8>)> {
    match spec_last_comma(s) {
        Some(i) => Some((s.take(i), s.skip(i + 1))),
        None => None,
    }
}

/// A well-formed numeric field: non-empty, digits only, value within bound.
pub open spec fn field_ok(f: Seq<u8>, max: int) -> bool {
    f.len() > 0 && all_dec_digits(f) && dec_value(f) <= max
}

/// The fields a flat record denotes: the sequence as its raw bytes, and
/// the six numeric fields.
pub struct RecordView {
    pub sequence: Seq<u8>,
    pub pulse_length: u16,
    pub repeats: u8,
    pub short: u8,
    pub long: u8,
    pub sync_bit: u8,
    pub sync_gap: u8,
}

/// The meaning of a flat record: the six numeric fields are the last six
/// comma-separated fields, each a non-empty digit run whose value fits its
/// width, and the sequence is everything before them — so a comma inside
/// the sequence text does not disturb the numeric fields.
pub open spec fn spec_parse_record(data: Seq<u8>) -> Option<RecordView> {
    match spec_split_tail(data) {
        None => None,
        Some((r5, f_sync_gap)) => match spec_split_tail(r5) {
            None => None,
            Some((r4, f_sync_bit)) => match spec_split_tail(r4) {
                None => None,
                Some((r3, f_long)) => match spec_split_tail(r3) {
                    None => None,
                    Some((r2, f_short)) => match spec_split_tail(r2) {
                        None => None,
                        Some((r1, f_repeats)) => match spec_split_tail(r1) {
                            None => None,
                            Some((rest, f_pulse)) => if field_ok(f_pulse, 65535) && field_ok(
                                f_repeats,
                                255,
                            ) && field_ok(f_short, 255) && field_ok(f_long, 255) && field_ok(
                                f_sync_bit,
                                255,
                            ) && field_ok(f_sync_gap, 255) {
                                Some(
                                    RecordView {
                                        sequence: rest,
                                        pulse_length: dec_value(f_pulse) as u16,
                                        repeats: dec_value(f_repeats) as u8,
                                        short: dec_value(f_short) as u8,
                                        long: dec_value(f_long) as u8,
                                        sync_bit: dec_value(f_sync_bit) as u8,
                                        sync_gap: dec_value(f_sync_gap) as u8,
                                    },
                                )
                            } else {
                                None
                            },
                        },
                    },
                },
            },
        },
    }
}

/// The index of the last comma in `data[..end]`, if any.
fn last_comma(data: &[u8], end: usize) -> (r: Option<usize>)
    requires
        end <= data@.len(),
    ensures
        r matches Some(i) ==> i < end && spec_last_comma(data@.take(end as int)) == Some(i as int),
        r is None ==> spec_last_comma(data@.take(end as int)) is None,
{
    let mut j: usize = end;
    while j > 0
        invariant
            j <= end <= data@.len(),
            spec_last_comma(data@.take(end as int)) == spec_last_comma(data@.take(j as int)),
        decreases j,
    {
        if data[j - 1] == FIELD_SEPARATOR {
            proof {
                assert(data@.take(j as int).last() == data@[j - 1]);
            }
            return Some(j - 1);
        }
        proof {
            assert(data@.take(j as int).last() == data@[j - 1]);
            assert(data@.take(j as int).drop_last() =~= data@.take(j - 1));
        }
        j = j - 1;
    }
    proof {
        assert(data@.take(0) =~= Seq::<u8>::empty());
    }
    None
}

/// Copies `data[start..end]` into a fresh vector.
fn copy_range(data: &[u8], start: usize, end: usize) -> (v: Vec<u8>)
    requires
        start <= end <= data@.len(),
    ensures
        v@ == data@.subrange(start as int, end as int),
{
    let mut v: Vec<u8> = Vec::new();
    let mut i: usize = start;
    while i < end
        invariant
            start <= i <= end <= data@.len(),
            v@ == data@.subrange(start as int, i as int),
        decreases end - i,
    {
        v.push(data[i]);
        proof {
            assert(data@.subrange(start as int, (i + 1) as int) =~= data@.subrange(
                start as int,
                i as int,
            ).push(data@[i as int]));
        }
        i = i + 1;
    }
    v
}

/// The outcome of parsing a flat record: the sequence field as its raw
/// bytes, and the six numeric fields.
#[derive(Debug)]
pub struct ParsedRecord {
    pub sequence_bytes: Vec<u8>,
    pub pulse_length: u16,
    pub repeats: u8,
    pub short: u8,
    pub long: u8,
    pub sync_bit: u8,
    pub sync_gap: u8,
}

/// Parses a flat record. The six numeric fields are split off the right
/// end, so a comma inside the sequence text does no harm; each must be a
/// non-empty digit run whose value fits its field. Everything before them
/// is returned as the sequence's raw bytes.
pub fn parse_record(data: &[u8]) -> (r: Option<ParsedRecord>)
    ensures
        r is Some <==> spec_parse_record(data@) is Some,
        r matches Some(rec) ==> spec_parse_record(data@) == Some(
            RecordView {
                sequence: rec.sequence_bytes@,
                pulse_length: rec.pulse_length,
                repeats: rec.repeats,
                short: rec.short,
                long: rec.long,
                sync_bit: rec.sync_bit,
                sync_gap: rec.sync_gap,
            },
        ),
{
    proof {
        assert(data@.take(data@.len() as int) =~= data@);
    }
    let c6 = match last_comma(data, data.len()) {
        Some(i) => i,
        None => {
            return None;
        },
    };
    let ghost r5 = data@.take(c6 as int);
    proof {
        assert(data@.subrange((c6 + 1) as int, data@.len() as int) =~= data@.skip(c6 + 1));
    }
    let v_sync_gap = match parse_dec_range(data, c6 + 1, data.len(), 255) {
        Some(v) => v,
        None => {
            return None;
        },
    };
    let c5 = match last_comma(data, c6) {
        Some(i) => i,
        None => {
            return None;
        },
    };
    let ghost r4 = data@.take(c5 as int);
    proof {
        assert(r5.take(c5 as int) =~= r4);
        assert(data@.subrange((c5 + 1) as int, c6 as int) =~= r5.skip(c5 + 1));
    }
    let v_sync_bit = match parse_dec_range(data, c5 + 1, c6, 255) {
        Some(v) => v,
        None => {
            return None;
        },
    };
    let c4 = match last_comma(data, c5) {
        Some(i) => i,
        None => {
            return None;
        },
    };
    let ghost r3 = data@.take(c4 as int);
    proof {
        assert(r4.take(c4 as int) =~= r3);
        assert(data@.subrange((c4 + 1) as int, c5 as int) =~= r4.skip(c4 + 1));
    }
    let v_long = match parse_dec_range(data, c4 + 1, c5, 255) {
        Some(v) => v,
        None => {
            return None;
        },
    };
    let c3 = match last_comma(data, c4) {
        Some(i) => i,
        None => {
            return None;
        },
    };
    let ghost r2 = data@.take(c3 as int);
    proof {
        assert(r3.take(c3 as int) =~= r2);
        assert(data@.subrange((c3 + 1) as int, c4 as int) =~= r3.skip(c3 + 1));
    }
    let v_short = match parse_dec_range(data, c3 + 1, c4, 255) {
        Some(v) => v,
        None => {
            return None;
        },
    };
    let c2 = match last_comma(data, c3) {
        Some(i) => i,
        None => {
            return None;
        },
    };
    let ghost r1 = data@.take(c2 as int);
    proof {
        assert(r2.take(c2 as int) =~= r1);
        assert(data@.subrange((c2 + 1) as int, c3 as int) =~= r2.skip(c2 + 1));
    }
    let v_repeats = match parse_dec_range(data, c2 + 1, c3, 255) {
        Some(v) => v,
        None => {
            return None;
        },
    };
    let c1 = match last_comma(data, c2) {
        Some(i) => i,
        None => {
            return None;
        },
    };
    let ghost rest = data@.take(c1 as int);
    proof {
        assert(r1.take(c1 as int) =~= rest);
        assert(data@.subrange((c1 + 1) as int, c2 as int) =~= r1.skip(c1 + 1));
    }
    let v_pulse = match parse_dec_range(data, c1 + 1, c2, 65535) {
        Some(v) => v,
        None => {
            return None;
        },
    };
    proof {
        lemma_dec_value_nonneg(data@.subrange((c1 + 1) as int, c2 as int));
        lemma_dec_value_nonneg(data@.subrange((c2 + 1) as int, c3 as int));
        lemma_dec_value_nonneg(data@.subrange((c3 + 1) as int, c4 as int));
        lemma_dec_value_nonneg(data@.subrange((c4 + 1) as int, c5 as int));
        lemma_dec_value_nonneg(data@.subrange((c5 + 1) as int, c6 as int));
        lemma_dec_value_nonneg(data@.subrange((c6 + 1) as int, data@.len() as int));
    }
    let rec = ParsedRecord {
        sequence_bytes: copy_range(data, 0, c1),
        pulse_length: v_pulse as u16,
        repeats: v_repeats as u8,
        short: v_short as u8,
        long: v_long as u8,
        sync_bit: v_sync_bit as u8,
        sync_gap: v_sync_gap as u8,
    };
    proof {
        assert(data@.subrange(0, c1 as int) =~= rest);
    }
    Some(rec)
}

/// In a byte sequence of the shape `x`, comma, `f` with a comma-free tail
/// `f`, the last comma is the written one.
proof fn lemma_last_comma_framed(x: Seq<u8>, f: Seq<u8>)
    requires
        forall|i: int| 0 <= i < f.len() ==> f[i] != FIELD_SEPARATOR,
    ensures
        spec_last_comma(x + seq![FIELD_SEPARATOR] + f) == Some(x.len() as int),
    decreases f.len(),
{
    let s = x + seq![FIELD_SEPARATOR] + f;
    if f.len() == 0 {
        assert(s.last() == FIELD_SEPARATOR);
    } else {
        assert(s.last() == f.last());
        assert(f.last() != FIELD_SEPARATOR);
        assert(s.drop_last() =~= x + seq![FIELD_SEPARATOR] + f.drop_last());
        lemma_last_comma_framed(x, f.drop_last());
    }
}

/// Splitting the final field off `x`, comma, `f` with a comma-free tail
/// `f` recovers the two parts exactly.
proof fn lemma_split_tail_framed(x: Seq<u8>, f: Seq<u8>)
    requires
        forall|i: int| 0 <= i < f.len() ==> f[i] != FIELD_SEPARATOR,
    ensures
        spec_split_tail(x + seq![FIELD_SEPARATOR] + f) == Some((x, f)),
{
    lemma_last_comma_framed(x, f);
    let s = x + seq![FIELD_SEPARATOR] + f;
    assert(s.take(x.len() as int) =~= x);
    assert(s.skip(x.len() as int + 1) =~= f);
}

/// A digit run holds no comma.
proof fn lemma_digits_comma_free(f: Seq<u8>)
    requires
        all_dec_digits(f),
    ensures
        forall|i: int| 0 <= i < f.len() ==> f[i] != FIELD_SEPARATOR,
{
    assert forall|i: int| 0 <= i < f.len() implies f[i] != FIELD_SEPARATOR by {
        assert(is_dec_digit(f[i]));
    }
}

/// Law: rendering a transmission as its flat record and parsing that
/// record back recovers every field — the pulse length, the repeat count
/// and the four protocol multipliers exactly, and the sequence as the
/// UTF-8 bytes of the sequence text, which decode to that very text.
pub proof fn lemma_record_round_trip(t: Transmission)
    ensures
        spec_parse_record(record_bytes(t)) == Some(
            RecordView {
                sequence: encode_utf8(t.sequence@),
                pulse_length: t.pulse_length,
                repeats: t.repeats,
                short: t.protocol.short,
                long: t.protocol.long,
                sync_bit: t.protocol.sync_bit,
                sync_gap: t.protocol.sync_gap,
            },
        ),
        decode_utf8(encode_utf8(t.sequence@)) == t.sequence@,
{
    let e = encode_utf8(t.sequence@);
    let c = seq![FIELD_SEPARATOR];
    let d1 = dec_bytes(t.pulse_length as nat);
    let d2 = dec_bytes(t.repeats as nat);
    let d3 = dec_bytes(t.protocol.short as nat);
    let d4 = dec_bytes(t.protocol.long as nat);
    let d5 = dec_bytes(t.protocol.sync_bit as nat);
    let d6 = dec_bytes(t.protocol.sync_gap as nat);
    lemma_dec_bytes_shape(t.pulse_length as nat);
    lemma_dec_bytes_shape(t.repeats as nat);
    lemma_dec_bytes_shape(t.protocol.short as nat);
    lemma_dec_bytes_shape(t.protocol.long as nat);
    lemma_dec_bytes_shape(t.protocol.sync_bit as nat);
    lemma_dec_bytes_shape(t.protocol.sync_gap as nat);
    lemma_dec_round_trip(t.pulse_length as nat);
    lemma_dec_round_trip(t.repeats as nat);
    lemma_dec_round_trip(t.protocol.short as nat);
    lemma_dec_round_trip(t.protocol.long as nat);
    lemma_dec_round_trip(t.protocol.sync_bit as nat);
    lemma_dec_round_trip(t.protocol.sync_gap as nat);
    lemma_digits_comma_free(d1);
    lemma_digits_comma_free(d2);
    lemma_digits_comma_free(d3);
    lemma_digits_comma_free(d4);
    lemma_digits_comma_free(d5);
    lemma_digits_comma_free(d6);
    let pre1 = e;
    let pre2 = pre1 + c + d1;
    let pre3 = pre2 + c + d2;
    let pre4 = pre3 + c + d3;
    let pre5 = pre4 + c + d4;
    let pre6 = pre5 + c + d5;
    assert(record_bytes(t) =~= pre6 + c + d6);
    lemma_split_tail_framed(pre6, d6);
    lemma_split_tail_framed(pre5, d5);
    lemma_split_tail_framed(pre4, d4);
    lemma_split_tail_framed(pre3, d3);
    lemma_split_tail_framed(pre2, d2);
    lemma_split_tail_framed(pre1, d1);
    vstd::utf8::encode_utf8_decode_utf8(t.sequence@);
}

} // verus!
