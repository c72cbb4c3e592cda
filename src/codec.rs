//! Encoding of a dense sequence of values of one type.
//!
//! The first byte of an encoded buffer is its encoding tag. `ENCODING_NULL`
//! stands alone and holds no values; `ENCODING_PLAIN` is followed by the
//! values one after the other: integers as eight big-endian bytes (a signed
//! integer as its two's complement), a boolean as one byte 0 or 1, a byte
//! string as its length in four big-endian bytes and then its bytes.
//! `ENCODING_BITPACK` holds booleans eight to a byte: the count in four
//! big-endian bytes, then bit `i` for value `i`. `ENCODING_RUNS` holds
//! integers, unsigned integers and floats as runs of equal values: for each
//! run its length in four big-endian bytes and its value in eight.
use vstd::prelude::*;

use crate::bitset::{bit_of, bytes_for_bits, get_bit, BitSet};
use crate::endian::{
    be32, be32_value, be64, be64_value, get_u32, get_u64, lemma_be32_round_trip,
    lemma_be64_round_trip, put_u32, put_u64,
};
use crate::schema::{value_fits, FieldVal, FieldValue, ValueType};

verus! {

pub const ENCODING_NULL: u8 = 0;

pub const ENCODING_PLAIN: u8 = 1;

pub const ENCODING_BITPACK: u8 = 2;

pub const ENCODING_RUNS: u8 = 3;

/// Whether values of `vt` are held in eight bytes.
pub open spec fn is_fixed_width(vt: ValueType) -> bool {
    vt == ValueType::Integer || vt == ValueType::Unsigned || vt == ValueType::Float
}

/// The eight-byte pattern of a fixed-width value.
pub open spec fn raw_value(v: FieldValue) -> u64 {
    match v {
        FieldValue::Integer(x) => x as u64,
        FieldValue::Unsigned(x) => x,
        FieldValue::Float(x) => x,
        _ => 0,
    }
}

/// The value of type `vt` whose pattern is `x`.
pub open spec fn from_raw(vt: ValueType, x: u64) -> FieldValue {
    if vt == ValueType::Integer {
        FieldValue::Integer(x as i64)
    } else if vt == ValueType::Unsigned {
        FieldValue::Unsigned(x)
    } else {
        FieldValue::Float(x)
    }
}

/// Reads runs of values of type `vt` from `pos` to the end of `s`.
pub open spec fn parse_runs(vt: ValueType, s: Seq<u8>, pos: int) -> Option<Seq<FieldValue>>
    decreases s.len() - pos,
{
    if pos < 0 || pos >= s.len() {
        if pos == s.len() {
            Some(Seq::empty())
        } else {
            None
        }
    } else if pos + 12 <= s.len() && be32_value(s.subrange(pos, pos + 4)) > 0 {
        let n = be32_value(s.subrange(pos, pos + 4));
        let x = be64_value(s.subrange(pos + 4, pos + 12));
        match parse_runs(vt, s, pos + 12) {
            None => None,
            Some(rest) => Some(Seq::new(n as nat, |i: int| from_raw(vt, x)) + rest),
        }
    } else {
        None
    }
}

/// The bytes of a sequence of runs, each a length and a pattern.
pub open spec fn runs_bytes(runs: Seq<(u32, u64)>) -> Seq<u8>
    decreases runs.len(),
{
    if runs.len() == 0 {
        Seq::empty()
    } else {
        be32(runs[0].0) + be64(runs[0].1) + runs_bytes(runs.drop_first())
    }
}

/// The values that a sequence of runs stands for.
pub open spec fn expansion(vt: ValueType, runs: Seq<(u32, u64)>) -> Seq<FieldValue>
    decreases runs.len(),
{
    if runs.len() == 0 {
        Seq::empty()
    } else {
        Seq::new(runs[0].0 as nat, |i: int| from_raw(vt, runs[0].1)) + expansion(
            vt,
            runs.drop_first(),
        )
    }
}

/// The bytes of one value.
pub open spec fn value_bytes(v: FieldValue) -> Seq<u8> {
    match v {
        FieldValue::Integer(x) => be64(x as u64),
        FieldValue::Unsigned(x) => be64(x),
        FieldValue::Float(x) => be64(x),
        FieldValue::Boolean(b) => seq![if b { 1u8 } else { 0u8 }],
        FieldValue::Bytes(s) => be32(s.len() as u32) + s,
    }
}

/// The bytes of a sequence of values, one after the other.
pub open spec fn values_bytes(vs: Seq<FieldValue>) -> Seq<u8>
    decreases vs.len(),
{
    if vs.len() == 0 {
        Seq::empty()
    } else {
        value_bytes(vs[0]) + values_bytes(vs.drop_first())
    }
}

/// The plain encoding of a sequence of values.
pub open spec fn encoded(vs: Seq<FieldValue>) -> Seq<u8> {
    if vs.len() == 0 {
        seq![ENCODING_NULL]
    } else {
        seq![ENCODING_PLAIN] + values_bytes(vs)
    }
}

/// Reads one value of type `vt` at `pos`: the value and the position after it.
pub open spec fn parse_value(vt: ValueType, s: Seq<u8>, pos: int) -> Option<(FieldValue, int)> {
    match vt {
        ValueType::Integer => if pos + 8 <= s.len() {
            Some((FieldValue::Integer(be64_value(s.subrange(pos, pos + 8)) as i64), pos + 8))
        } else {
            None
        },
        ValueType::Unsigned => if pos + 8 <= s.len() {
            Some((FieldValue::Unsigned(be64_value(s.subrange(pos, pos + 8))), pos + 8))
        } else {
            None
        },
        ValueType::Float => if pos + 8 <= s.len() {
            Some((FieldValue::Float(be64_value(s.subrange(pos, pos + 8))), pos + 8))
        } else {
            None
        },
        ValueType::Boolean => if pos + 1 <= s.len() && s[pos] <= 1 {
            Some((FieldValue::Boolean(s[pos] == 1), pos + 1))
        } else {
            None
        },
        ValueType::String => if pos + 4 <= s.len() && pos + 4 + be32_value(
            s.subrange(pos, pos + 4),
        ) <= s.len() {
            let n = be32_value(s.subrange(pos, pos + 4)) as int;
            Some((FieldValue::Bytes(s.subrange(pos + 4, pos + 4 + n)), pos + 4 + n))
        } else {
            None
        },
        ValueType::Unknown => None,
    }
}

/// Reads values of type `vt` from `pos` to the end of `s`.
pub open spec fn parse_values(vt: ValueType, s: Seq<u8>, pos: int) -> Option<Seq<FieldValue>>
    decreases s.len() - pos,
{
    if pos < 0 || pos >= s.len() {
        if pos == s.len() {
            Some(Seq::empty())
        } else {
            None
        }
    } else {
        match parse_value(vt, s, pos) {
            None => None,
            Some((v, next)) => if next <= pos {
                None
            } else {
                match parse_values(vt, s, next) {
                    None => None,
                    Some(rest) => Some(seq![v] + rest),
                }
            },
        }
    }
}

/// What a buffer decodes to as values of type `vt`; `None` where it is truncated,
/// malformed or carries an unknown tag.
pub open spec fn decoded(vt: ValueType, s: Seq<u8>) -> Option<Seq<FieldValue>> {
    if s.len() == 0 || vt == ValueType::Unknown {
        None
    } else if s[0] == ENCODING_NULL {
        if s.len() == 1 {
            Some(Seq::empty())
        } else {
            None
        }
    } else if s[0] == ENCODING_PLAIN {
        parse_values(vt, s, 1)
    } else if s[0] == ENCODING_BITPACK && vt == ValueType::Boolean {
        unpacked(s)
    } else if s[0] == ENCODING_RUNS && is_fixed_width(vt) {
        parse_runs(vt, s, 1)
    } else {
        None
    }
}

proof fn lemma_runs_bytes_push(runs: Seq<(u32, u64)>, r: (u32, u64))
    ensures
        runs_bytes(runs.push(r)) == runs_bytes(runs) + (be32(r.0) + be64(r.1)),
    decreases runs.len(),
{
    if runs.len() == 0 {
        let e = runs.push(r).drop_first();
        assert(e =~= Seq::<(u32, u64)>::empty());
        assert(runs_bytes(e) == Seq::<u8>::empty());
        assert(runs_bytes(runs) == Seq::<u8>::empty());
        assert(runs_bytes(runs.push(r)) =~= runs_bytes(runs) + (be32(r.0) + be64(r.1)));
    } else {
        lemma_runs_bytes_push(runs.drop_first(), r);
        assert(runs.push(r).drop_first() =~= runs.drop_first().push(r));
        assert(runs_bytes(runs.push(r)) =~= runs_bytes(runs) + (be32(r.0) + be64(r.1)));
    }
}

proof fn lemma_expansion_push(vt: ValueType, runs: Seq<(u32, u64)>, r: (u32, u64))
    ensures
        expansion(vt, runs.push(r)) == expansion(vt, runs) + Seq::new(
            r.0 as nat,
            |i: int| from_raw(vt, r.1),
        ),
    decreases runs.len(),
{
    if runs.len() == 0 {
        let e = runs.push(r).drop_first();
        assert(e =~= Seq::<(u32, u64)>::empty());
        assert(expansion(vt, e) == Seq::<FieldValue>::empty());
        assert(expansion(vt, runs) == Seq::<FieldValue>::empty());
        assert(expansion(vt, runs.push(r)) =~= expansion(vt, runs) + Seq::new(
            r.0 as nat,
            |i: int| from_raw(vt, r.1),
        ));
    } else {
        lemma_expansion_push(vt, runs.drop_first(), r);
        assert(runs.push(r).drop_first() =~= runs.drop_first().push(r));
        assert(expansion(vt, runs.push(r)) =~= expansion(vt, runs) + Seq::new(
            r.0 as nat,
            |i: int| from_raw(vt, r.1),
        ));
    }
}

proof fn lemma_parse_runs(vt: ValueType, s: Seq<u8>, pos: int, runs: Seq<(u32, u64)>)
    requires
        0 <= pos <= s.len(),
        s.subrange(pos, s.len() as int) == runs_bytes(runs),
        forall|k: int| 0 <= k < runs.len() ==> (#[trigger] runs[k]).0 > 0,
    ensures
        parse_runs(vt, s, pos) == Some(expansion(vt, runs)),
    decreases runs.len(),
{
    if runs.len() == 0 {
        assert(s.subrange(pos, s.len() as int).len() == 0);
    } else {
        let r = runs[0];
        let rest = runs.drop_first();
        lemma_be32_round_trip(r.0);
        lemma_be64_round_trip(r.1);
        let tail = s.subrange(pos, s.len() as int);
        assert(runs_bytes(runs) == be32(r.0) + be64(r.1) + runs_bytes(rest));
        assert(s.subrange(pos, pos + 4) =~= tail.subrange(0, 4));
        assert(tail.subrange(0, 4) =~= be32(r.0));
        assert(s.subrange(pos + 4, pos + 12) =~= tail.subrange(4, 12));
        assert(tail.subrange(4, 12) =~= be64(r.1));
        assert(s.subrange(pos + 12, s.len() as int) =~= tail.subrange(12, tail.len() as int));
        assert(tail.subrange(12, tail.len() as int) =~= runs_bytes(rest));
        assert forall|k: int| 0 <= k < rest.len() implies (#[trigger] rest[k]).0 > 0 by {
            assert(rest[k] == runs[k + 1]);
        }
        lemma_parse_runs(vt, s, pos + 12, rest);
    }
}

/// The booleans of a bit-packed buffer: a count, then one bit per value.
pub open spec fn unpacked(s: Seq<u8>) -> Option<Seq<FieldValue>> {
    if s.len() >= 5 && s.len() == 5 + bytes_for_bits(be32_value(s.subrange(1, 5)) as nat) {
        Some(
            Seq::new(
                be32_value(s.subrange(1, 5)) as nat,
                |i: int| FieldValue::Boolean(bit_of(s.subrange(5, s.len() as int), i)),
            ),
        )
    } else {
        None
    }
}

pub open spec fn all_fit(vt: ValueType, vs: Seq<FieldValue>) -> bool {
    forall|i: int| 0 <= i < vs.len() ==> value_fits(vt, #[trigger] vs[i])
}

pub open spec fn dense_view(vs: Seq<FieldVal>) -> Seq<FieldValue> {
    vs.map_values(|v: FieldVal| v@)
}

pub proof fn lemma_values_bytes_push(vs: Seq<FieldValue>, v: FieldValue)
    ensures
        values_bytes(vs.push(v)) == values_bytes(vs) + value_bytes(v),
    decreases vs.len(),
{
    if vs.len() == 0 {
        let e = vs.push(v).drop_first();
        assert(e =~= Seq::<FieldValue>::empty());
        assert(values_bytes(e) == Seq::<u8>::empty());
        assert(values_bytes(vs) == Seq::<u8>::empty());
        assert(values_bytes(vs.push(v)) == value_bytes(v) + values_bytes(e));
        assert(values_bytes(vs.push(v)) =~= values_bytes(vs) + value_bytes(v));
    } else {
        lemma_values_bytes_push(vs.drop_first(), v);
        assert(vs.push(v).drop_first() =~= vs.drop_first().push(v));
        assert(values_bytes(vs.push(v)) =~= values_bytes(vs) + value_bytes(v));
    }
}

pub proof fn lemma_parse_value(vt: ValueType, s: Seq<u8>, pos: int, v: FieldValue)
    requires
        0 <= pos,
        pos + value_bytes(v).len() <= s.len(),
        s.subrange(pos, pos + value_bytes(v).len()) == value_bytes(v),
        value_fits(vt, v),
    ensures
        value_bytes(v).len() > 0,
        parse_value(vt, s, pos) == Some((v, pos + value_bytes(v).len())),
{
    match v {
        FieldValue::Integer(x) => {
            lemma_be64_round_trip(x as u64);
            assert((x as u64) as i64 == x) by (bit_vector);
        },
        FieldValue::Unsigned(x) => {
            lemma_be64_round_trip(x);
        },
        FieldValue::Float(x) => {
            lemma_be64_round_trip(x);
        },
        FieldValue::Boolean(b) => {
            assert(s[pos] == value_bytes(v)[0]);
        },
        FieldValue::Bytes(t) => {
            lemma_be32_round_trip(t.len() as u32);
            let w = value_bytes(v);
            assert(s.subrange(pos, pos + 4) =~= w.subrange(0, 4));
            assert(w.subrange(0, 4) =~= be32(t.len() as u32));
            assert(s.subrange(pos + 4, pos + 4 + t.len()) =~= w.subrange(4, w.len() as int));
            assert(w.subrange(4, w.len() as int) =~= t);
        },
    }
}

pub proof fn lemma_parse_values(vt: ValueType, s: Seq<u8>, pos: int, vs: Seq<FieldValue>)
    requires
        0 <= pos <= s.len(),
        s.subrange(pos, s.len() as int) == values_bytes(vs),
        all_fit(vt, vs),
    ensures
        parse_values(vt, s, pos) == Some(vs),
    decreases vs.len(),
{
    if vs.len() == 0 {
        assert(s.subrange(pos, s.len() as int).len() == 0);
    } else {
        let v = vs[0];
        let w = value_bytes(v);
        let rest = vs.drop_first();
        assert(value_fits(vt, vs[0]));
        assert(values_bytes(vs) == w + values_bytes(rest));
        let tail = s.subrange(pos, s.len() as int);
        assert(tail.subrange(0, w.len() as int) =~= w);
        assert(tail.subrange(w.len() as int, tail.len() as int) =~= values_bytes(rest));
        assert(s.subrange(pos, pos + w.len()) =~= s.subrange(pos, s.len() as int).subrange(
            0,
            w.len() as int,
        ));
        lemma_parse_value(vt, s, pos, v);
        let next = pos + w.len();
        assert(s.subrange(next, s.len() as int) =~= s.subrange(pos, s.len() as int).subrange(
            w.len() as int,
            s.len() - pos,
        ));
        assert(all_fit(vt, rest)) by {
            assert forall|i: int| 0 <= i < rest.len() implies value_fits(vt, #[trigger] rest[i]) by {
                assert(rest[i] == vs[i + 1]);
            }
        }
        lemma_parse_values(vt, s, next, rest);
        assert(seq![v] + rest =~= vs);
    }
}

/// Decoding an encoded sequence gives the sequence back.
pub proof fn lemma_decode_encoded(vt: ValueType, vs: Seq<FieldValue>)
    requires
        all_fit(vt, vs),
        vt != ValueType::Unknown,
    ensures
        decoded(vt, encoded(vs)) == Some(vs),
{
    if vs.len() > 0 {
        let s = encoded(vs);
        assert(s.subrange(1, s.len() as int) =~= values_bytes(vs));
        lemma_parse_values(vt, s, 1, vs);
    } else {
        assert(vs =~= Seq::<FieldValue>::empty());
    }
}

fn push_value(out: &mut Vec<u8>, v: &FieldVal)
    requires
        v@ matches FieldValue::Bytes(s) ==> s.len() <= u32::MAX,
    ensures
        final(out)@ == old(out)@ + value_bytes(v@),
{
    match v {
        FieldVal::Integer(x) => put_u64(out, *x as u64),
        FieldVal::Unsigned(x) => put_u64(out, *x),
        FieldVal::Float(x) => put_u64(out, *x),
        FieldVal::Boolean(b) => {
            out.push(if *b { 1u8 } else { 0u8 });
            assert(final(out)@ =~= old(out)@ + value_bytes(v@));
        },
        FieldVal::Bytes(s) => {
            put_u32(out, s.len() as u32);
            let ghost mid = out@;
            out.extend_from_slice(s.as_slice());
            assert(final(out)@ =~= mid + s@);
            assert(final(out)@ =~= old(out)@ + value_bytes(v@));
        },
    }
}

fn encode_plain(values: &Vec<FieldVal>) -> (r: Vec<u8>)
    requires
        forall|i: int|
            0 <= i < values@.len() ==> (#[trigger] values@[i]@ matches FieldValue::Bytes(s)
                ==> s.len() <= u32::MAX),
    ensures
        r@ == encoded(dense_view(values@)),
{
    let mut out: Vec<u8> = Vec::new();
    if values.len() == 0 {
        out.push(ENCODING_NULL);
        assert(out@ =~= encoded(dense_view(values@)));
        return out;
    }
    out.push(ENCODING_PLAIN);
    let mut i: usize = 0;
    while i < values.len()
        invariant
            i <= values@.len(),
            values@.len() > 0,
            forall|k: int|
                0 <= k < values@.len() ==> (#[trigger] values@[k]@ matches FieldValue::Bytes(s)
                    ==> s.len() <= u32::MAX),
            out@ == seq![ENCODING_PLAIN] + values_bytes(dense_view(values@).take(i as int)),
        decreases values@.len() - i,
    {
        push_value(&mut out, &values[i]);
        proof {
            let d = dense_view(values@);
            assert(d.take(i + 1) =~= d.take(i as int).push(d[i as int]));
            lemma_values_bytes_push(d.take(i as int), d[i as int]);
        }
        i += 1;
    }
    assert(dense_view(values@).take(i as int) =~= dense_view(values@));
    out
}

fn encode_bitpack(values: &Vec<FieldVal>) -> (r: Vec<u8>)
    requires
        values@.len() <= u32::MAX,
        all_fit(ValueType::Boolean, dense_view(values@)),
    ensures
        unpacked(r@) == Some(dense_view(values@)),
        r@.len() > 0 && r@[0] == ENCODING_BITPACK,
{
    let n = values.len();
    let mut mask = BitSet::with_len(n);
    let mut i: usize = 0;
    while i < n
        invariant
            n == values@.len(),
            i <= n,
            mask.wf(),
            mask@.len() == n,
            forall|j: int| 0 <= j < n ==> #[trigger] mask@[j] == (j < i && values@[j]@ == FieldValue::Boolean(true)),
        decreases n - i,
    {
        if let FieldVal::Boolean(true) = values[i] {
            mask.set(i);
        }
        i += 1;
    }
    let mut out: Vec<u8> = Vec::new();
    out.push(ENCODING_BITPACK);
    put_u32(&mut out, n as u32);
    let bits = mask.bytes();
    out.extend_from_slice(bits);
    proof {
        lemma_be32_round_trip(n as u32);
        let o = out@;
        assert(o.subrange(1, 5) =~= be32(n as u32));
        assert(o.subrange(5, o.len() as int) =~= bits@);
        let d = dense_view(values@);
        let u = unpacked(o)->Some_0;
        assert forall|j: int| 0 <= j < n implies #[trigger] u[j] == d[j] by {
            assert(mask@[j] == bit_of(bits@, j));
            assert(value_fits(ValueType::Boolean, d[j]));
            assert(d[j] == values@[j]@);
        }
        assert(u =~= d);
    }
    out
}

fn raw_of(v: &FieldVal) -> (r: u64)
    ensures
        r == raw_value(v@),
{
    match v {
        FieldVal::Integer(x) => *x as u64,
        FieldVal::Unsigned(x) => *x,
        FieldVal::Float(x) => *x,
        _ => 0,
    }
}

proof fn lemma_from_raw(vt: ValueType, v: FieldValue)
    requires
        is_fixed_width(vt),
        value_fits(vt, v),
    ensures
        from_raw(vt, raw_value(v)) == v,
{
    if let FieldValue::Integer(x) = v {
        assert((x as u64) as i64 == x) by (bit_vector);
    }
}

/// The runs of equal patterns of fixed-width values, each at most `u32::MAX` long.
fn runs_of(vt: ValueType, values: &Vec<FieldVal>) -> (r: Vec<(u32, u64)>)
    requires
        is_fixed_width(vt),
        all_fit(vt, dense_view(values@)),
    ensures
        expansion(vt, r@) == dense_view(values@),
        forall|k: int| 0 <= k < r@.len() ==> (#[trigger] r@[k]).0 > 0,
{
    let ghost d = dense_view(values@);
    let mut runs: Vec<(u32, u64)> = Vec::new();
    let mut i: usize = 0;
    while i < values.len()
        invariant
            is_fixed_width(vt),
            d == dense_view(values@),
            all_fit(vt, d),
            i <= values@.len(),
            expansion(vt, runs@) == d.take(i as int),
            forall|k: int| 0 <= k < runs@.len() ==> (#[trigger] runs@[k]).0 > 0,
        decreases values@.len() - i,
    {
        let x = raw_of(&values[i]);
        proof {
            assert(d[i as int] == values@[i as int]@);
            lemma_from_raw(vt, d[i as int]);
            assert(d.take(i + 1) =~= d.take(i as int).push(d[i as int]));
        }
        let n = runs.len();
        if n > 0 && runs[n - 1].1 == x && runs[n - 1].0 < u32::MAX {
            let last = runs[n - 1];
            let ghost before = runs@;
            runs.set(n - 1, (last.0 + 1, x));
            proof {
                let init = before.drop_last();
                assert(before =~= init.push(last));
                assert(runs@ =~= init.push(((last.0 + 1) as u32, x)));
                lemma_expansion_push(vt, init, last);
                lemma_expansion_push(vt, init, ((last.0 + 1) as u32, x));
                assert(Seq::new((last.0 + 1) as nat, |j: int| from_raw(vt, x)) =~= Seq::new(
                    last.0 as nat,
                    |j: int| from_raw(vt, last.1),
                ).push(from_raw(vt, x)));
                assert(expansion(vt, runs@) =~= d.take(i + 1));
                assert forall|k: int| 0 <= k < runs@.len() implies (#[trigger] runs@[k]).0 > 0 by {
                    if k < n - 1 {
                        assert(runs@[k] == before[k]);
                    }
                }
            }
        } else {
            let ghost before = runs@;
            runs.push((1u32, x));
            proof {
                lemma_expansion_push(vt, before, (1u32, x));
                assert(Seq::new(1nat, |j: int| from_raw(vt, x)) =~= seq![from_raw(vt, x)]);
                assert(expansion(vt, runs@) =~= d.take(i + 1));
                assert forall|k: int| 0 <= k < runs@.len() implies (#[trigger] runs@[k]).0 > 0 by {
                    if k < n {
                        assert(runs@[k] == before[k]);
                    }
                }
            }
        }
        i += 1;
    }
    proof {
        assert(d.take(i as int) =~= d);
    }
    runs
}

fn encode_runs(vt: ValueType, runs: &Vec<(u32, u64)>) -> (r: Vec<u8>)
    requires
        is_fixed_width(vt),
        forall|k: int| 0 <= k < runs@.len() ==> (#[trigger] runs@[k]).0 > 0,
    ensures
        decoded(vt, r@) == Some(expansion(vt, runs@)),
{
    let mut out: Vec<u8> = Vec::new();
    out.push(ENCODING_RUNS);
    let mut k: usize = 0;
    while k < runs.len()
        invariant
            k <= runs@.len(),
            out@ == seq![ENCODING_RUNS] + runs_bytes(runs@.take(k as int)),
        decreases runs@.len() - k,
    {
        let (n, x) = runs[k];
        put_u32(&mut out, n);
        put_u64(&mut out, x);
        proof {
            assert(runs@.take(k + 1) =~= runs@.take(k as int).push((n, x)));
            lemma_runs_bytes_push(runs@.take(k as int), (n, x));
        }
        k += 1;
    }
    proof {
        assert(runs@.take(k as int) =~= runs@);
        assert(out@.subrange(1, out@.len() as int) =~= runs_bytes(runs@));
        lemma_parse_runs(vt, out@, 1, runs@);
    }
    out
}

/// Encodes `values`, all of type `vt`: booleans bit-packed, fixed-width
/// values as runs when that is shorter, other values plain, and no values
/// as the null encoding.
pub fn encode(vt: ValueType, values: &Vec<FieldVal>) -> (r: Vec<u8>)
    requires
        vt != ValueType::Unknown,
        values@.len() <= u32::MAX,
        all_fit(vt, dense_view(values@)),
    ensures
        decoded(vt, r@) == Some(dense_view(values@)),
{
    if values.len() > 0 && vt == ValueType::Boolean {
        return encode_bitpack(values);
    }
    if values.len() > 0 && (vt == ValueType::Integer || vt == ValueType::Unsigned || vt
        == ValueType::Float) {
        let runs = runs_of(vt, values);
        if runs.len() < values.len() / 2 {
            return encode_runs(vt, &runs);
        }
    }
    proof {
        assert forall|i: int|
            0 <= i < values@.len() implies (#[trigger] values@[i]@ matches FieldValue::Bytes(s)
            ==> s.len() <= u32::MAX) by {
            assert(value_fits(vt, dense_view(values@)[i]));
        }
        lemma_decode_encoded(vt, dense_view(values@));
    }
    encode_plain(values)
}

fn read_value(vt: ValueType, b: &[u8], pos: usize) -> (r: Option<(FieldVal, usize)>)
    requires
        pos <= b@.len(),
    ensures
        match r {
            None => parse_value(vt, b@, pos as int) is None,
            Some((v, next)) => parse_value(vt, b@, pos as int) == Some((v@, next as int)),
        },
{
    let len = b.len();
    match vt {
        ValueType::Integer => if len - pos >= 8 {
            Some((FieldVal::Integer(get_u64(b, pos) as i64), pos + 8))
        } else {
            None
        },
        ValueType::Unsigned => if len - pos >= 8 {
            Some((FieldVal::Unsigned(get_u64(b, pos)), pos + 8))
        } else {
            None
        },
        ValueType::Float => if len - pos >= 8 {
            Some((FieldVal::Float(get_u64(b, pos)), pos + 8))
        } else {
            None
        },
        ValueType::Boolean => if len - pos >= 1 && b[pos] <= 1 {
            Some((FieldVal::Boolean(b[pos] == 1), pos + 1))
        } else {
            None
        },
        ValueType::String => {
            if len - pos < 4 {
                return None;
            }
            let n = get_u32(b, pos) as usize;
            if len - pos - 4 < n {
                return None;
            }
            let mut bytes: Vec<u8> = Vec::new();
            bytes.extend_from_slice(vstd::slice::slice_subrange(b, pos + 4, pos + 4 + n));
            assert(bytes@ =~= b@.subrange(pos + 4, pos + 4 + n));
            Some((FieldVal::Bytes(bytes), pos + 4 + n))
        },
        ValueType::Unknown => None,
    }
}

fn decode_bitpack(b: &[u8]) -> (r: Option<Vec<FieldVal>>)
    ensures
        match r {
            None => unpacked(b@) is None,
            Some(vs) => unpacked(b@) == Some(dense_view(vs@)),
        },
{
    let len = b.len();
    if len < 5 {
        return None;
    }
    let n = get_u32(b, 1) as usize;
    if (len - 5) != n / 8 + (if n % 8 == 0 { 0 } else { 1 }) {
        return None;
    }
    let bits = vstd::slice::slice_subrange(b, 5, len);
    let ghost u = unpacked(b@)->Some_0;
    let mut out: Vec<FieldVal> = Vec::new();
    let mut i: usize = 0;
    while i < n
        invariant
            i <= n,
            b@.len() >= 5,
            n == be32_value(b@.subrange(1, 5)),
            bits@ == b@.subrange(5, b@.len() as int),
            bits@.len() == bytes_for_bits(n as nat),
            u == unpacked(b@)->Some_0,
            u.len() == n,
            out@.len() == i,
            dense_view(out@) == u.take(i as int),
        decreases n - i,
    {
        assert(i / 8 < bytes_for_bits(n as nat)) by (nonlinear_arith)
            requires
                i < n,
        ;
        let v = get_bit(bits, i);
        let ghost before = out@;
        out.push(FieldVal::Boolean(v));
        proof {
            assert(u[i as int] == FieldValue::Boolean(v));
            assert(out@ == before.push(FieldVal::Boolean(v)));
            assert(dense_view(out@)[i as int] == FieldValue::Boolean(v));
            assert(dense_view(out@) =~= u.take(i + 1));
        }
        i += 1;
    }
    proof {
        assert(u.take(n as int) =~= u);
    }
    Some(out)
}

fn value_from_raw(vt: ValueType, x: u64) -> (r: FieldVal)
    ensures
        r@ == from_raw(vt, x),
{
    if vt == ValueType::Integer {
        FieldVal::Integer(x as i64)
    } else if vt == ValueType::Unsigned {
        FieldVal::Unsigned(x)
    } else {
        FieldVal::Float(x)
    }
}

fn decode_runs(vt: ValueType, b: &[u8]) -> (r: Option<Vec<FieldVal>>)
    requires
        b@.len() > 0,
        is_fixed_width(vt),
    ensures
        match r {
            None => parse_runs(vt, b@, 1) is None,
            Some(vs) => parse_runs(vt, b@, 1) == Some(dense_view(vs@)),
        },
{
    let len = b.len();
    let mut out: Vec<FieldVal> = Vec::new();
    let mut pos: usize = 1;
    while pos < len
        invariant
            len == b@.len(),
            1 <= pos <= len,
            is_fixed_width(vt),
            parse_runs(vt, b@, 1) == match parse_runs(vt, b@, pos as int) {
                None => None,
                Some(rest) => Some(dense_view(out@) + rest),
            },
        decreases len - pos,
    {
        if len - pos < 12 {
            return None;
        }
        let n = get_u32(b, pos);
        if n == 0 {
            return None;
        }
        let x = get_u64(b, pos + 4);
        let v = value_from_raw(vt, x);
        let ghost start = out@;
        let mut c: u32 = 0;
        while c < n
            invariant
                c <= n,
                out@.len() == start.len() + c,
                forall|j: int| 0 <= j < start.len() ==> out@[j] == start[j],
                forall|j: int| start.len() <= j < out@.len() ==> (#[trigger] out@[j])@ == from_raw(vt, x),
            decreases n - c,
        {
            out.push(value_from_raw(vt, x));
            c += 1;
        }
        proof {
            let run = Seq::new(n as nat, |i: int| from_raw(vt, x));
            assert(dense_view(out@) =~= dense_view(start) + run);
            match parse_runs(vt, b@, pos + 12) {
                None => {},
                Some(rest) => {
                    assert(dense_view(start) + (run + rest) =~= dense_view(out@) + rest);
                },
            }
        }
        pos = pos + 12;
    }
    assert(dense_view(out@) + Seq::<FieldValue>::empty() =~= dense_view(out@));
    Some(out)
}

/// Decodes a buffer into values of type `vt`.
pub fn decode(vt: ValueType, b: &[u8]) -> (r: Option<Vec<FieldVal>>)
    ensures
        match r {
            None => decoded(vt, b@) is None,
            Some(vs) => decoded(vt, b@) == Some(dense_view(vs@)),
        },
{
    if b.len() == 0 || vt == ValueType::Unknown {
        return None;
    }
    if b[0] == ENCODING_NULL {
        if b.len() == 1 {
            let out: Vec<FieldVal> = Vec::new();
            assert(dense_view(out@) =~= Seq::<FieldValue>::empty());
            return Some(out);
        }
        return None;
    }
    if b[0] == ENCODING_BITPACK && vt == ValueType::Boolean {
        return decode_bitpack(b);
    }
    if b[0] == ENCODING_RUNS && (vt == ValueType::Integer || vt == ValueType::Unsigned || vt
        == ValueType::Float) {
        return decode_runs(vt, b);
    }
    if b[0] != ENCODING_PLAIN {
        return None;
    }
    let mut out: Vec<FieldVal> = Vec::new();
    let mut pos: usize = 1;
    while pos < b.len()
        invariant
            1 <= pos <= b@.len(),
            b@.len() > 0,
            b@[0] == ENCODING_PLAIN,
            vt != ValueType::Unknown,
            parse_values(vt, b@, 1) == match parse_values(vt, b@, pos as int) {
                None => None,
                Some(rest) => Some(dense_view(out@) + rest),
            },
        decreases b@.len() - pos,
    {
        match read_value(vt, b, pos) {
            None => {
                return None;
            },
            Some((v, next)) => {
                if next <= pos {
                    return None;
                }
                proof {
                    let ghost d = dense_view(out@);
                    assert(dense_view(out@.push(v)) =~= d.push(v@));
                    match parse_values(vt, b@, next as int) {
                        None => {},
                        Some(rest) => {
                            assert(d + (seq![v@] + rest) =~= d.push(v@) + rest);
                        },
                    }
                }
                out.push(v);
                pos = next;
            },
        }
    }
    assert(dense_view(out@) + Seq::<FieldValue>::empty() =~= dense_view(out@));
    Some(out)
}

} // verus!
