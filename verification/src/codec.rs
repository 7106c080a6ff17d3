//! The binary record format of a sample history.
//!
//! A stored blob is the concatenation of zero or more records with no outer
//! envelope, so that a new sample can be logged by appending one freshly
//! encoded record to the blob without reading what is already there.
//! Decoding repeatedly parses one record from the current offset until the
//! input is exhausted.
//!
//! One record is a tag byte `0x0A` (field 1, length-delimited), the byte
//! length of the record body as a varint, and the body: tag `0x08` and the
//! timestamp as an unsigned 32-bit varint, tag `0x15` and the level's bit
//! pattern as four fixed little-endian bytes, tag `0x18` and the charging
//! flag as one byte, 0 or 1. All three fields are required, in this order,
//! with nothing after them.
use vstd::prelude::*;

use crate::state::BatteryState;

verus! {

/// Tag byte of one length-delimited record in the blob.
pub const TAG_RECORD: u8 = 0x0A;

/// Tag byte of the timestamp field inside a record body.
pub const TAG_TIMESTAMP: u8 = 0x08;

/// Tag byte of the level field inside a record body.
pub const TAG_LEVEL: u8 = 0x15;

/// Tag byte of the charging field inside a record body.
pub const TAG_CHARGING: u8 = 0x18;

/// Why a blob failed to decode.
#[derive(Clone, Copy, PartialEq, Eq, Structural, Debug)]
pub enum FormatError {
    /// The blob ends where a record declared or needed more bytes.
    Truncated,
    /// A record body holds an unknown field, a malformed one, or not
    /// exactly the three required fields.
    UnexpectedField,
}

/// The canonical varint encoding of `n`: seven value bits per byte, low
/// bits first, the high bit of each byte flagging a continuation.
pub open spec fn spec_varint(n: nat) -> Seq<u8>
    decreases n,
{
    if n < 0x80 {
        seq![n as u8]
    } else {
        seq![(n % 0x80 + 0x80) as u8] + spec_varint(n / 0x80)
    }
}

/// 128 raised to `i`: the place value of the `i`-th varint byte.
pub open spec fn pow128(i: nat) -> nat
    decreases i,
{
    if i == 0 {
        1
    } else {
        128 * pow128((i - 1) as nat)
    }
}

/// Reads one varint at the front of `s`, spending at most `budget` bytes:
/// the value and the count of bytes used, `Truncated` if `s` ends inside
/// the varint, `UnexpectedField` if the varint runs past its budget.
pub open spec fn spec_varint_rec(s: Seq<u8>, budget: nat) -> Result<(nat, nat), FormatError>
    decreases budget,
{
    if s.len() == 0 {
        Err(FormatError::Truncated)
    } else if s[0] < 0x80 {
        Ok((s[0] as nat, 1))
    } else if budget <= 1 {
        Err(FormatError::UnexpectedField)
    } else {
        match spec_varint_rec(s.skip(1), (budget - 1) as nat) {
            Ok(r) => Ok((((s[0] - 0x80) as nat) + 0x80 * r.0, r.1 + 1)),
            Err(e) => Err(e),
        }
    }
}

/// Reads one unsigned 32-bit varint at the front of `s`: at most five
/// bytes, and a value at most `u32::MAX`; a longer varint or a larger
/// value makes the field malformed.
pub open spec fn spec_parse_varint(s: Seq<u8>) -> Result<(nat, nat), FormatError> {
    match spec_varint_rec(s, 5) {
        Ok(r) => if r.0 > u32::MAX { Err(FormatError::UnexpectedField) } else { Ok(r) },
        Err(e) => Err(e),
    }
}

/// Reads the unsigned 32-bit varint at `bytes[off..end]`, never looking at
/// or past `end`. Returns the value and the count of bytes used.
fn read_varint(bytes: &Vec<u8>, off: usize, end: usize) -> (r: Result<(u32, usize), FormatError>)
    requires
        off <= end <= bytes@.len(),
    ensures
        match r {
            Ok(v) => {
                &&& spec_parse_varint(bytes@.subrange(off as int, end as int))
                    == Ok::<(nat, nat), FormatError>((v.0 as nat, v.1 as nat))
                &&& 1 <= v.1
                &&& off + v.1 <= end
            },
            Err(e) => spec_parse_varint(bytes@.subrange(off as int, end as int))
                == Err::<(nat, nat), FormatError>(e),
        },
{
    let ghost s0 = bytes@.subrange(off as int, end as int);
    let mut i: usize = 0;
    let mut acc: u64 = 0;
    let mut m: u64 = 1;
    proof {
        assert(s0.skip(0) == s0);
    }
    loop
        invariant
            off <= end <= bytes@.len(),
            s0 == bytes@.subrange(off as int, end as int),
            i <= 4,
            off + i <= end,
            i == 0 ==> m == 1,
            i == 1 ==> m == 128,
            i == 2 ==> m == 16384,
            i == 3 ==> m == 0x20_0000,
            i == 4 ==> m == 0x1000_0000,
            m >= 1,
            m <= 0x1000_0000,
            acc < m,
            spec_varint_rec(s0, 5) == (match spec_varint_rec(s0.skip(i as int), (5 - i) as nat) {
                Ok(r) => Ok::<(nat, nat), FormatError>(
                    ((acc + m * r.0) as nat, (i + r.1) as nat),
                ),
                Err(e) => Err::<(nat, nat), FormatError>(e),
            }),
        decreases 5 - i,
    {
        proof {
            assert(s0.len() == end - off);
        }
        if i >= end - off {
            proof {
                assert(s0.skip(i as int).len() == 0);
            }
            return Err(FormatError::Truncated);
        }
        let b = bytes[off + i];
        proof {
            assert(s0.skip(i as int)[0] == s0[i as int]);
            assert(s0[i as int] == bytes@[off + i]);
            assert(s0.skip(i as int).len() > 0);
        }
        if b < 0x80 {
            let v64: u64 = acc + m * (b as u64);
            proof {
                assert(spec_varint_rec(s0.skip(i as int), (5 - i) as nat)
                    == Ok::<(nat, nat), FormatError>((b as nat, 1)));
                assert(m * (b as u64) <= m * 127) by (nonlinear_arith)
                    requires b < 0x80, m >= 1;
                assert(spec_varint_rec(s0, 5)
                    == Ok::<(nat, nat), FormatError>((v64 as nat, (i + 1) as nat)));
            }
            if v64 > 0xFFFF_FFFF {
                return Err(FormatError::UnexpectedField);
            }
            return Ok((v64 as u32, i + 1));
        }
        if i == 4 {
            proof {
                assert(spec_varint_rec(s0.skip(i as int), (5 - i) as nat)
                    == Err::<(nat, nat), FormatError>(FormatError::UnexpectedField));
            }
            return Err(FormatError::UnexpectedField);
        }
        proof {
            assert(s0.skip(i as int).skip(1) == s0.skip(i + 1));
            let inner = spec_varint_rec(s0.skip(i + 1), (5 - (i + 1)) as nat);
            assert(spec_varint_rec(s0.skip(i as int), (5 - i) as nat) == (match inner {
                Ok(r) => Ok::<(nat, nat), FormatError>(
                    (((b - 0x80) as nat) + 0x80 * r.0, r.1 + 1),
                ),
                Err(e) => Err::<(nat, nat), FormatError>(e),
            }));
            if inner is Ok {
                let rv = inner->Ok_0.0;
                assert(m * (((b - 0x80) as nat) + 0x80 * rv)
                    == m * ((b - 0x80) as nat) + (m * 128) * rv) by (nonlinear_arith);
            }
            assert(m * ((b - 0x80) as u64) <= m * 127) by (nonlinear_arith)
                requires b >= 0x80, m >= 1;
        }
        acc = acc + m * ((b - 0x80) as u64);
        m = m * 128;
        i = i + 1;
        proof {
            assert(acc < m) by (nonlinear_arith)
                requires acc < m;
        }
    }
}

/// Appends the varint encoding of `n` to `out`.
fn push_varint(out: &mut Vec<u8>, n: u32)
    ensures
        final(out)@ == old(out)@ + spec_varint(n as nat),
{
    let ghost n0 = n as nat;
    let ghost start = old(out)@;
    let mut n = n;
    while n >= 0x80
        invariant
            start + spec_varint(n0) == out@ + spec_varint(n as nat),
        decreases n,
    {
        let low: u32 = (n & 0x7F) | 0x80;
        proof {
            assert(((n & 0x7F) | 0x80) == n % 0x80 + 0x80) by (bit_vector);
            assert(((n & 0x7F) | 0x80) < 0x100) by (bit_vector);
            assert(n >> 7 == n / 0x80) by (bit_vector);
            assert(spec_varint(n as nat)
                == seq![low as u8] + spec_varint((n as nat) / 0x80));
            assert(out@ + spec_varint(n as nat)
                == out@.push(low as u8) + spec_varint((n as nat) / 0x80));
            assert((n / 0x80) as nat == (n as nat) / 0x80);
        }
        out.push(low as u8);
        n = n >> 7;
    }
    proof {
        assert(spec_varint(n as nat) == seq![n as u8]);
        assert(out@ + seq![n as u8] == out@.push(n as u8));
    }
    out.push(n as u8);
}

/// The four little-endian bytes of a level's bit pattern.
pub open spec fn spec_le32(bits: u32) -> Seq<u8> {
    seq![
        (bits & 0xFF) as u8,
        ((bits >> 8) & 0xFF) as u8,
        ((bits >> 16) & 0xFF) as u8,
        ((bits >> 24) & 0xFF) as u8,
    ]
}

/// The body of one record: the three required fields of a sample, in
/// field-number order.
pub open spec fn spec_payload(s: BatteryState) -> Seq<u8> {
    seq![TAG_TIMESTAMP] + spec_varint(s.timestamp as nat) + seq![TAG_LEVEL] + spec_le32(
        s.level_bits,
    ) + seq![TAG_CHARGING, if s.charging { 1u8 } else { 0u8 }]
}

/// One whole record: the record tag, the body length as a varint, and the
/// body.
pub open spec fn spec_record(s: BatteryState) -> Seq<u8> {
    seq![TAG_RECORD] + spec_varint(spec_payload(s).len()) + spec_payload(s)
}

/// The encoding of a whole history: its records, in order, and nothing
/// else.
pub open spec fn spec_encode(h: Seq<BatteryState>) -> Seq<u8>
    decreases h.len(),
{
    if h.len() == 0 {
        Seq::empty()
    } else {
        spec_record(h[0]) + spec_encode(h.skip(1))
    }
}

/// Reads one record body: exactly the three required fields, in order,
/// with nothing after them. Every failure inside a body is an unexpected
/// or malformed field, since the body's extent is already known.
pub open spec fn spec_parse_payload(p: Seq<u8>) -> Result<BatteryState, FormatError> {
    if p.len() < 1 || p[0] != TAG_TIMESTAMP {
        Err(FormatError::UnexpectedField)
    } else {
        match spec_parse_varint(p.skip(1)) {
            Err(_) => Err(FormatError::UnexpectedField),
            Ok(r) => {
                let i = 1 + r.1 as int;
                if p.len() != i + 7 {
                    Err(FormatError::UnexpectedField)
                } else if p[i] != TAG_LEVEL || p[i + 5] != TAG_CHARGING || p[i + 6] > 1 {
                    Err(FormatError::UnexpectedField)
                } else {
                    Ok(
                        BatteryState {
                            timestamp: r.0 as u32,
                            level_bits: (p[i + 1] as u32) | ((p[i + 2] as u32) << 8) | ((p[i
                                + 3] as u32) << 16) | ((p[i + 4] as u32) << 24),
                            charging: p[i + 6] == 1,
                        },
                    )
                }
            },
        }
    }
}

/// Reads a whole blob: one record from the current offset, repeated until
/// the input is exhausted. `Truncated` comes only from the blob ending
/// where a record declared or needed more bytes.
pub open spec fn spec_decode(b: Seq<u8>) -> Result<Seq<BatteryState>, FormatError>
    decreases b.len(),
{
    if b.len() == 0 {
        Ok(Seq::empty())
    } else if b[0] != TAG_RECORD {
        Err(FormatError::UnexpectedField)
    } else {
        match spec_parse_varint(b.skip(1)) {
            Err(e) => Err(e),
            Ok(r) => {
                let start = 1 + r.1 as int;
                if b.len() - start < r.0 {
                    Err(FormatError::Truncated)
                } else {
                    match spec_parse_payload(b.subrange(start, start + r.0)) {
                        Err(e) => Err(e),
                        Ok(s) => match spec_decode(b.skip(start + r.0)) {
                            Err(e) => Err(e),
                            Ok(rest) => Ok(seq![s] + rest),
                        },
                    }
                }
            },
        }
    }
}

/// Reads the record body at `bytes[start..end]`.
fn parse_payload(bytes: &Vec<u8>, start: usize, end: usize) -> (r: Result<
    BatteryState,
    FormatError,
>)
    requires
        start <= end <= bytes@.len(),
    ensures
        match r {
            Ok(s) => spec_parse_payload(bytes@.subrange(start as int, end as int))
                == Ok::<BatteryState, FormatError>(s),
            Err(e) => spec_parse_payload(bytes@.subrange(start as int, end as int))
                == Err::<BatteryState, FormatError>(e),
        },
{
    let ghost p = bytes@.subrange(start as int, end as int);
    if end - start < 1 {
        return Err(FormatError::UnexpectedField);
    }
    proof {
        assert(p[0] == bytes@[start as int]);
    }
    if bytes[start] != TAG_TIMESTAMP {
        return Err(FormatError::UnexpectedField);
    }
    proof {
        assert(p.skip(1) == bytes@.subrange(start + 1, end as int));
    }
    let (ts, used) = match read_varint(bytes, start + 1, end) {
        Ok(v) => v,
        Err(_) => {
            return Err(FormatError::UnexpectedField);
        },
    };
    let i = start + 1 + used;
    proof {
        assert(p.len() == end - start);
    }
    if end - i != 7 {
        return Err(FormatError::UnexpectedField);
    }
    proof {
        assert(p[1 + used] == bytes@[i as int]);
        assert(p[1 + used + 5] == bytes@[i + 5]);
        assert(p[1 + used + 6] == bytes@[i + 6]);
        assert(p[1 + used + 1] == bytes@[i + 1]);
        assert(p[1 + used + 2] == bytes@[i + 2]);
        assert(p[1 + used + 3] == bytes@[i + 3]);
        assert(p[1 + used + 4] == bytes@[i + 4]);
    }
    if bytes[i] != TAG_LEVEL {
        return Err(FormatError::UnexpectedField);
    }
    if bytes[i + 5] != TAG_CHARGING {
        return Err(FormatError::UnexpectedField);
    }
    let c = bytes[i + 6];
    if c > 1 {
        return Err(FormatError::UnexpectedField);
    }
    let bits: u32 = bytes[i + 1] as u32 | (bytes[i + 2] as u32) << 8 | (bytes[i + 3] as u32) << 16
        | (bytes[i + 4] as u32) << 24;
    Ok(BatteryState { timestamp: ts, level_bits: bits, charging: c == 1 })
}

/// Decodes a blob into the history it encodes: zero or more records, each
/// independently encoded, so a blob grown by appending single records
/// decodes like any other.
#[verifier::rlimit(50)]
pub fn decode(bytes: &Vec<u8>) -> (r: Result<Vec<BatteryState>, FormatError>)
    ensures
        match r {
            Ok(states) => spec_decode(bytes@) == Ok::<Seq<BatteryState>, FormatError>(states@),
            Err(e) => spec_decode(bytes@) == Err::<Seq<BatteryState>, FormatError>(e),
        },
{
    let n = bytes.len();
    let mut out: Vec<BatteryState> = Vec::new();
    let mut off: usize = 0;
    proof {
        assert(bytes@.skip(0) == bytes@);
        assert(out@ + spec_decode(bytes@)->Ok_0 == spec_decode(bytes@)->Ok_0);
    }
    while off < n
        invariant
            off <= n == bytes@.len(),
            spec_decode(bytes@) == (match spec_decode(bytes@.skip(off as int)) {
                Ok(rest) => Ok::<Seq<BatteryState>, FormatError>(out@ + rest),
                Err(e) => Err::<Seq<BatteryState>, FormatError>(e),
            }),
        decreases n - off,
    {
        let ghost d = bytes@.skip(off as int);
        proof {
            assert(d.len() == n - off);
            assert(d[0] == bytes@[off as int]);
        }
        if bytes[off] != TAG_RECORD {
            return Err(FormatError::UnexpectedField);
        }
        proof {
            assert(d.skip(1) == bytes@.subrange(off + 1, n as int));
        }
        let (plen, used) = match read_varint(bytes, off + 1, n) {
            Ok(v) => v,
            Err(e) => {
                return Err(e);
            },
        };
        let start = off + 1 + used;
        let plen_us = plen as usize;
        if n - start < plen_us {
            return Err(FormatError::Truncated);
        }
        let pend = start + plen_us;
        proof {
            assert(d.subrange(1 + used, 1 + used + plen_us)
                == bytes@.subrange(start as int, pend as int));
        }
        let s = match parse_payload(bytes, start, pend) {
            Ok(s) => s,
            Err(e) => {
                return Err(e);
            },
        };
        let ghost before = out@;
        out.push(s);
        off = pend;
        proof {
            assert(d.skip(1 + used + plen_us) == bytes@.skip(pend as int));
            let inner = spec_decode(bytes@.skip(pend as int));
            assert(spec_decode(d) == (match inner {
                Ok(rest) => Ok::<Seq<BatteryState>, FormatError>(seq![s] + rest),
                Err(e) => Err::<Seq<BatteryState>, FormatError>(e),
            }));
            if inner is Ok {
                assert(before + (seq![s] + inner->Ok_0) == out@ + inner->Ok_0);
            }
        }
    }
    proof {
        assert(bytes@.skip(n as int).len() == 0);
        assert(out@ + Seq::<BatteryState>::empty() == out@);
    }
    Ok(out)
}

/// Encodes one sample as one record, the unit that an append-only logger
/// adds to the stored blob.
pub fn encode_state(s: &BatteryState) -> (out: Vec<u8>)
    ensures
        out@ == spec_record(*s),
{
    let mut payload: Vec<u8> = Vec::new();
    payload.push(TAG_TIMESTAMP);
    push_varint(&mut payload, s.timestamp);
    payload.push(TAG_LEVEL);
    let bits = s.level_bits;
    proof {
        assert(bits & 0xFF < 0x100) by (bit_vector);
        assert((bits >> 8) & 0xFF < 0x100) by (bit_vector);
        assert((bits >> 16) & 0xFF < 0x100) by (bit_vector);
        assert((bits >> 24) & 0xFF < 0x100) by (bit_vector);
    }
    payload.push((bits & 0xFF) as u8);
    payload.push(((bits >> 8) & 0xFF) as u8);
    payload.push(((bits >> 16) & 0xFF) as u8);
    payload.push(((bits >> 24) & 0xFF) as u8);
    payload.push(TAG_CHARGING);
    payload.push(if s.charging { 1 } else { 0 });
    proof {
        assert(payload@ == spec_payload(*s));
        lemma_pow128_5();
        lemma_varint_len_le(s.timestamp as nat, 5);
        assert(payload@.len() <= 13);
    }
    let mut out: Vec<u8> = Vec::new();
    out.push(TAG_RECORD);
    push_varint(&mut out, payload.len() as u32);
    let ghost mid = out@;
    out.append(&mut payload);
    proof {
        assert(mid == seq![TAG_RECORD] + spec_varint(spec_payload(*s).len()));
        assert(out@ == spec_record(*s));
    }
    out
}

/// Evaluates the fifth power of 128, the first value a five-byte varint
/// cannot reach.
proof fn lemma_pow128_5()
    ensures
        pow128(5) == 0x8_0000_0000,
{
    assert(pow128(0) == 1);
    assert(pow128(1) == 128);
    assert(pow128(2) == 16384);
    assert(pow128(3) == 0x20_0000);
    assert(pow128(4) == 0x1000_0000);
    assert(pow128(5) == 0x8_0000_0000);
}

/// A varint of a value below `128^k` takes at most `k` bytes.
proof fn lemma_varint_len_le(n: nat, k: nat)
    requires
        1 <= k,
        n < pow128(k),
    ensures
        spec_varint(n).len() <= k,
    decreases k,
{
    if n >= 0x80 {
        assert(pow128(k) == 128 * pow128((k - 1) as nat));
        assert(k >= 2) by {
            if k == 1 {
                assert(pow128(1) == 128 * pow128(0));
            }
        }
        assert(n / 0x80 < pow128((k - 1) as nat)) by (nonlinear_arith)
            requires n < 128 * pow128((k - 1) as nat);
        lemma_varint_len_le(n / 0x80, (k - 1) as nat);
    }
}

/// Encodes a whole history: the concatenation of its records.
pub fn encode(states: &Vec<BatteryState>) -> (out: Vec<u8>)
    ensures
        out@ == spec_encode(states@),
{
    let mut out: Vec<u8> = Vec::new();
    let mut i: usize = 0;
    proof {
        assert(states@.skip(0) == states@);
        assert(out@ + spec_encode(states@) == spec_encode(states@));
    }
    while i < states.len()
        invariant
            i <= states@.len(),
            out@ + spec_encode(states@.skip(i as int)) == spec_encode(states@),
        decreases states@.len() - i,
    {
        let mut rec = encode_state(&states[i]);
        let ghost before = out@;
        proof {
            assert(states@.skip(i as int)[0] == states@[i as int]);
            assert(states@.skip(i as int).skip(1) == states@.skip(i + 1));
            assert(spec_encode(states@.skip(i as int))
                == spec_record(states@[i as int]) + spec_encode(states@.skip(i + 1)));
        }
        out.append(&mut rec);
        i = i + 1;
        proof {
            assert(out@ + spec_encode(states@.skip(i as int))
                == before + spec_encode(states@.skip(i - 1)));
        }
    }
    proof {
        assert(states@.skip(states@.len() as int).len() == 0);
        assert(out@ + spec_encode(states@.skip(states@.len() as int)) == out@);
    }
    out
}

/// One field of the record schema: its field number and its wire kind
/// (0 varint, 2 length-delimited, 5 fixed 32-bit), as a tag byte carries
/// them — the number in the high five bits, the kind in the low three.
#[derive(Clone, Copy, PartialEq, Eq, Structural, Debug)]
pub struct FieldDescriptor {
    pub number: u8,
    pub wire: u8,
}

/// Splits a tag byte into the field it declares.
pub fn field_of_tag(tag: u8) -> (d: FieldDescriptor)
    ensures
        d.number == tag >> 3,
        d.wire == tag & 7,
{
    FieldDescriptor { number: tag >> 3, wire: tag & 7 }
}

/// Parses the record schema out of its three embedded tag bytes: the
/// timestamp as field 1, a varint; the level as field 2, fixed 32-bit;
/// the charging flag as field 3, a varint.
pub fn parse_descriptor_proto() -> (d: Vec<FieldDescriptor>)
    ensures
        d@ == seq![
            FieldDescriptor { number: 1, wire: 0 },
            FieldDescriptor { number: 2, wire: 5 },
            FieldDescriptor { number: 3, wire: 0 },
        ],
{
    let mut d: Vec<FieldDescriptor> = Vec::new();
    proof {
        assert(TAG_TIMESTAMP >> 3 == 1 && TAG_TIMESTAMP & 7 == 0) by (bit_vector);
        assert(TAG_LEVEL >> 3 == 2 && TAG_LEVEL & 7 == 5) by (bit_vector);
        assert(TAG_CHARGING >> 3 == 3 && TAG_CHARGING & 7 == 0) by (bit_vector);
    }
    d.push(field_of_tag(TAG_TIMESTAMP));
    d.push(field_of_tag(TAG_LEVEL));
    d.push(field_of_tag(TAG_CHARGING));
    proof {
        assert(d@ == seq![
            FieldDescriptor { number: 1, wire: 0 },
            FieldDescriptor { number: 2, wire: 5 },
            FieldDescriptor { number: 3, wire: 0 },
        ]);
    }
    d
}

/// The parsed record schema, as `parse_descriptor_proto` reads it.
pub fn file_descriptor_proto() -> (d: Vec<FieldDescriptor>)
    ensures
        d@ == seq![
            FieldDescriptor { number: 1, wire: 0 },
            FieldDescriptor { number: 2, wire: 5 },
            FieldDescriptor { number: 3, wire: 0 },
        ],
{
    parse_descriptor_proto()
}

/// A canonical varint at the front of any input reads back as the value
/// it encodes, using exactly its own bytes, whatever follows it.
proof fn lemma_varint_rec_roundtrip(n: nat, rest: Seq<u8>, budget: nat)
    requires
        1 <= budget,
        n < pow128(budget),
    ensures
        spec_varint_rec(spec_varint(n) + rest, budget)
            == Ok::<(nat, nat), FormatError>((n, spec_varint(n).len())),
    decreases budget,
{
    let s = spec_varint(n) + rest;
    if n < 0x80 {
        assert(spec_varint(n) == seq![n as u8]);
        assert(s[0] == n as u8);
    } else {
        assert(budget >= 2) by {
            if budget == 1 {
                assert(pow128(1) == 128 * pow128(0));
            }
        }
        assert(s[0] == (n % 0x80 + 0x80) as u8);
        assert(n % 0x80 + 0x80 < 0x100);
        assert(s[0] >= 0x80);
        assert(s.skip(1) == spec_varint(n / 0x80) + rest);
        assert(pow128(budget) == 128 * pow128((budget - 1) as nat));
        assert(n / 0x80 < pow128((budget - 1) as nat)) by (nonlinear_arith)
            requires n < 128 * pow128((budget - 1) as nat);
        lemma_varint_rec_roundtrip(n / 0x80, rest, (budget - 1) as nat);
        assert((s[0] - 0x80) as nat + 0x80 * (n / 0x80) == n);
    }
}

/// As `lemma_varint_rec_roundtrip`, for values of the 32-bit timestamp and
/// length fields.
proof fn lemma_varint_roundtrip(n: nat, rest: Seq<u8>)
    requires
        n <= u32::MAX,
    ensures
        spec_parse_varint(spec_varint(n) + rest)
            == Ok::<(nat, nat), FormatError>((n, spec_varint(n).len())),
{
    lemma_pow128_5();
    lemma_varint_rec_roundtrip(n, rest, 5);
}

/// An encoded record body reads back as the sample it encodes.
proof fn lemma_payload_roundtrip(s: BatteryState)
    ensures
        spec_parse_payload(spec_payload(s)) == Ok::<BatteryState, FormatError>(s),
{
    let p = spec_payload(s);
    let v = spec_varint(s.timestamp as nat);
    let bits = s.level_bits;
    let tail = seq![TAG_LEVEL] + spec_le32(bits) + seq![
        TAG_CHARGING,
        if s.charging { 1u8 } else { 0u8 },
    ];
    assert(p[0] == TAG_TIMESTAMP);
    assert(p.skip(1) == v + tail);
    lemma_varint_roundtrip(s.timestamp as nat, tail);
    assert(spec_parse_varint(p.skip(1)) == Ok::<(nat, nat), FormatError>(
        (s.timestamp as nat, v.len()),
    ));
    let i = 1 + v.len() as int;
    assert(p.len() == i + 7);
    assert(p[i] == TAG_LEVEL);
    assert(p[i + 1] == (bits & 0xFF) as u8);
    assert(p[i + 2] == ((bits >> 8) & 0xFF) as u8);
    assert(p[i + 3] == ((bits >> 16) & 0xFF) as u8);
    assert(p[i + 4] == ((bits >> 24) & 0xFF) as u8);
    assert(p[i + 5] == TAG_CHARGING);
    assert(p[i + 6] == if s.charging { 1u8 } else { 0u8 });
    assert(bits & 0xFF < 0x100) by (bit_vector);
    assert((bits >> 8) & 0xFF < 0x100) by (bit_vector);
    assert((bits >> 16) & 0xFF < 0x100) by (bit_vector);
    assert((bits >> 24) & 0xFF < 0x100) by (bit_vector);
    assert((bits & 0xFF) | (((bits >> 8) & 0xFF) << 8) | (((bits >> 16) & 0xFF) << 16) | (((bits
        >> 24) & 0xFF) << 24) == bits) by (bit_vector);
    assert(s.timestamp as nat as u32 == s.timestamp);
}

/// Prepending one encoded record to any blob prepends exactly its sample
/// to what the blob decodes to, and keeps any failure as it was.
proof fn lemma_record_prepend(s: BatteryState, rest: Seq<u8>)
    ensures
        spec_decode(spec_record(s) + rest) == (match spec_decode(rest) {
            Ok(h) => Ok::<Seq<BatteryState>, FormatError>(seq![s] + h),
            Err(e) => Err::<Seq<BatteryState>, FormatError>(e),
        }),
{
    let p = spec_payload(s);
    let b = spec_record(s) + rest;
    lemma_pow128_5();
    lemma_varint_len_le(s.timestamp as nat, 5);
    assert(p.len() <= 13);
    assert(spec_varint(p.len()) == seq![p.len() as u8]);
    assert(b[0] == TAG_RECORD);
    assert(b.skip(1) == spec_varint(p.len()) + (p + rest));
    lemma_varint_roundtrip(p.len(), p + rest);
    assert(spec_parse_varint(b.skip(1)) == Ok::<(nat, nat), FormatError>((p.len(), 1)));
    let start = 2;
    assert(b.len() - start == p.len() + rest.len());
    assert(b.subrange(start, start + p.len() as int) == p);
    lemma_payload_roundtrip(s);
    assert(b.skip(start + p.len() as int) == rest);
}

/// Decoding inverts encoding: any history, re-read from its own encoding,
/// comes back unchanged.
pub proof fn lemma_decode_encode_roundtrip(h: Seq<BatteryState>)
    ensures
        spec_decode(spec_encode(h)) == Ok::<Seq<BatteryState>, FormatError>(h),
    decreases h.len(),
{
    if h.len() == 0 {
        assert(spec_encode(h).len() == 0);
        assert(h == Seq::<BatteryState>::empty());
    } else {
        lemma_decode_encode_roundtrip(h.skip(1));
        lemma_record_prepend(h[0], spec_encode(h.skip(1)));
        assert(seq![h[0]] + h.skip(1) == h);
    }
}

/// The blob is a record stream: the concatenation of two encoded histories
/// decodes to the one history they form together. Appending freshly
/// encoded records to a stored blob is therefore safe without reading it.
pub proof fn lemma_appended_records_decode(h1: Seq<BatteryState>, h2: Seq<BatteryState>)
    ensures
        spec_decode(spec_encode(h1) + spec_encode(h2))
            == Ok::<Seq<BatteryState>, FormatError>(h1 + h2),
    decreases h1.len(),
{
    if h1.len() == 0 {
        assert(spec_encode(h1) + spec_encode(h2) == spec_encode(h2));
        lemma_decode_encode_roundtrip(h2);
        assert(h1 + h2 == h2);
    } else {
        lemma_appended_records_decode(h1.skip(1), h2);
        assert(spec_encode(h1) + spec_encode(h2)
            == spec_record(h1[0]) + (spec_encode(h1.skip(1)) + spec_encode(h2)));
        lemma_record_prepend(h1[0], spec_encode(h1.skip(1)) + spec_encode(h2));
        assert(seq![h1[0]] + (h1.skip(1) + h2) == h1 + h2);
    }
}

} // verus!
