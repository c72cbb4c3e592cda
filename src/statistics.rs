//! Statistics of the values of a page: bounds of the present values and the
//! number of nulls.
use vstd::prelude::*;

use crate::schema::{FieldVal, FieldValue, ValueType};

verus! {

/// Bounds and counts of one column's values in a page.
#[derive(Debug)]
pub struct ValueStatistics<T> {
    pub min: Option<T>,
    pub max: Option<T>,
    pub distinct_count: Option<u64>,
    pub null_count: u64,
}

/// Statistics of a page, by the physical type of its column.
/// Float bounds are held as IEEE-754 bits.
#[derive(Debug)]
pub enum PageStatistics {
    Bool(ValueStatistics<bool>),
    F64(ValueStatistics<u64>),
    I64(ValueStatistics<i64>),
    U64(ValueStatistics<u64>),
    Bytes(ValueStatistics<Vec<u8>>),
}

/// A key that orders float bits as the floats they stand for
/// (negative zero before positive zero).
pub open spec fn float_key(bits: u64) -> int {
    if bits >= 0x8000_0000_0000_0000u64 {
        0x8000_0000_0000_0000int - 1 - (bits - 0x8000_0000_0000_0000int)
    } else {
        0x8000_0000_0000_0000int + bits
    }
}

/// Lexicographic order of byte strings.
pub open spec fn lex_le(a: Seq<u8>, b: Seq<u8>) -> bool
    decreases a.len(),
{
    if a.len() == 0 {
        true
    } else if b.len() == 0 {
        false
    } else if a[0] != b[0] {
        a[0] < b[0]
    } else {
        lex_le(a.drop_first(), b.drop_first())
    }
}

/// The order of values of one type.
pub open spec fn value_le(a: FieldValue, b: FieldValue) -> bool {
    match (a, b) {
        (FieldValue::Integer(x), FieldValue::Integer(y)) => x <= y,
        (FieldValue::Unsigned(x), FieldValue::Unsigned(y)) => x <= y,
        (FieldValue::Float(x), FieldValue::Float(y)) => float_key(x) <= float_key(y),
        (FieldValue::Boolean(x), FieldValue::Boolean(y)) => !x || y,
        (FieldValue::Bytes(x), FieldValue::Bytes(y)) => lex_le(x, y),
        _ => false,
    }
}

pub open spec fn same_kind(a: FieldValue, b: FieldValue) -> bool {
    match (a, b) {
        (FieldValue::Integer(_), FieldValue::Integer(_)) => true,
        (FieldValue::Unsigned(_), FieldValue::Unsigned(_)) => true,
        (FieldValue::Float(_), FieldValue::Float(_)) => true,
        (FieldValue::Boolean(_), FieldValue::Boolean(_)) => true,
        (FieldValue::Bytes(_), FieldValue::Bytes(_)) => true,
        _ => false,
    }
}

pub proof fn lemma_lex_total(a: Seq<u8>, b: Seq<u8>)
    ensures
        lex_le(a, b) || lex_le(b, a),
    decreases a.len(),
{
    if a.len() > 0 && b.len() > 0 && a[0] == b[0] {
        lemma_lex_total(a.drop_first(), b.drop_first());
    }
}

pub proof fn lemma_lex_trans(a: Seq<u8>, b: Seq<u8>, c: Seq<u8>)
    requires
        lex_le(a, b),
        lex_le(b, c),
    ensures
        lex_le(a, c),
    decreases a.len(),
{
    if a.len() > 0 && b.len() > 0 && c.len() > 0 && a[0] == b[0] && b[0] == c[0] {
        lemma_lex_trans(a.drop_first(), b.drop_first(), c.drop_first());
    }
}

pub proof fn lemma_value_le_total(a: FieldValue, b: FieldValue)
    requires
        same_kind(a, b),
    ensures
        value_le(a, b) || value_le(b, a),
{
    if let (FieldValue::Bytes(x), FieldValue::Bytes(y)) = (a, b) {
        lemma_lex_total(x, y);
    }
}

pub proof fn lemma_value_le_trans(a: FieldValue, b: FieldValue, c: FieldValue)
    requires
        value_le(a, b),
        value_le(b, c),
    ensures
        value_le(a, c),
{
    if let (FieldValue::Bytes(x), FieldValue::Bytes(y), FieldValue::Bytes(z)) = (a, b, c) {
        lemma_lex_trans(x, y, z);
    }
}

fn lex_le_exec(a: &Vec<u8>, b: &Vec<u8>) -> (r: bool)
    ensures
        r == lex_le(a@, b@),
{
    let mut i: usize = 0;
    assert(a@.subrange(0, a@.len() as int) =~= a@);
    assert(b@.subrange(0, b@.len() as int) =~= b@);
    while i < a.len() && i < b.len() && a[i] == b[i]
        invariant
            i <= a@.len(),
            i <= b@.len(),
            lex_le(a@, b@) == lex_le(a@.subrange(i as int, a@.len() as int), b@.subrange(
                i as int,
                b@.len() as int,
            )),
        decreases a@.len() - i,
    {
        proof {
            let sa = a@.subrange(i as int, a@.len() as int);
            let sb = b@.subrange(i as int, b@.len() as int);
            assert(sa.drop_first() =~= a@.subrange(i + 1, a@.len() as int));
            assert(sb.drop_first() =~= b@.subrange(i + 1, b@.len() as int));
        }
        i += 1;
    }
    if i == a.len() {
        true
    } else if i == b.len() {
        false
    } else {
        a[i] < b[i]
    }
}

fn float_key_exec(bits: u64) -> (r: u128)
    ensures
        r as int == float_key(bits),
{
    if bits >= 0x8000_0000_0000_0000u64 {
        (0x7fff_ffff_ffff_ffffu64 - (bits - 0x8000_0000_0000_0000u64)) as u128
    } else {
        0x8000_0000_0000_0000u128 + bits as u128
    }
}

fn value_le_exec(a: &FieldVal, b: &FieldVal) -> (r: bool)
    ensures
        r == value_le(a@, b@),
{
    match (a, b) {
        (FieldVal::Integer(x), FieldVal::Integer(y)) => *x <= *y,
        (FieldVal::Unsigned(x), FieldVal::Unsigned(y)) => *x <= *y,
        (FieldVal::Float(x), FieldVal::Float(y)) => float_key_exec(*x) <= float_key_exec(*y),
        (FieldVal::Boolean(x), FieldVal::Boolean(y)) => !*x || *y,
        (FieldVal::Bytes(x), FieldVal::Bytes(y)) => lex_le_exec(x, y),
        _ => false,
    }
}

/// Whether `m` is a least element of `d`.
pub open spec fn is_min_of(m: FieldValue, d: Seq<FieldValue>) -> bool {
    d.contains(m) && forall|j: int| 0 <= j < d.len() ==> value_le(m, #[trigger] d[j])
}

/// Whether `m` is a greatest element of `d`.
pub open spec fn is_max_of(m: FieldValue, d: Seq<FieldValue>) -> bool {
    d.contains(m) && forall|j: int| 0 <= j < d.len() ==> value_le(#[trigger] d[j], m)
}

pub open spec fn one_kind(d: Seq<FieldValue>) -> bool {
    forall|i: int, j: int| 0 <= i < d.len() && 0 <= j < d.len() ==> same_kind(#[trigger] d[i], #[trigger] d[j])
}

/// The positions of a least and a greatest element of a non-empty sequence.
fn bounds_positions(d: &Vec<FieldVal>) -> (r: (usize, usize))
    requires
        d@.len() > 0,
        one_kind(d@.map_values(|v: FieldVal| v@)),
    ensures
        r.0 < d@.len(),
        r.1 < d@.len(),
        forall|j: int| 0 <= j < d@.len() ==> value_le(d@[r.0 as int]@, #[trigger] d@[j]@),
        forall|j: int| 0 <= j < d@.len() ==> value_le(#[trigger] d@[j]@, d@[r.1 as int]@),
{
    let ghost dv = d@.map_values(|v: FieldVal| v@);
    let mut lo: usize = 0;
    let mut hi: usize = 0;
    let mut i: usize = 1;
    proof {
        assert(dv[0] == d@[0]@);
        lemma_value_le_total(dv[0], dv[0]);
    }
    while i < d.len()
        invariant
            1 <= i <= d@.len(),
            lo < i,
            hi < i,
            dv == d@.map_values(|v: FieldVal| v@),
            one_kind(dv),
            forall|j: int| 0 <= j < i ==> value_le(d@[lo as int]@, #[trigger] d@[j]@),
            forall|j: int| 0 <= j < i ==> value_le(#[trigger] d@[j]@, d@[hi as int]@),
        decreases d@.len() - i,
    {
        assert(dv[i as int] == d@[i as int]@ && dv[lo as int] == d@[lo as int]@ && dv[hi as int]
            == d@[hi as int]@);
        assert(same_kind(dv[i as int], dv[lo as int]));
        assert(same_kind(dv[i as int], dv[hi as int]));
        let below = !value_le_exec(&d[lo], &d[i]);
        let above = !value_le_exec(&d[i], &d[hi]);
        proof {
            lemma_value_le_total(d@[lo as int]@, d@[i as int]@);
            lemma_value_le_total(d@[i as int]@, d@[hi as int]@);
            if below {
                assert forall|j: int| 0 <= j <= i implies value_le(
                    d@[i as int]@,
                    #[trigger] d@[j]@,
                ) by {
                    if j < i {
                        lemma_value_le_trans(d@[i as int]@, d@[lo as int]@, d@[j]@);
                    } else {
                        lemma_value_le_total(d@[j]@, d@[j]@);
                    }
                }
            }
            if above {
                assert forall|j: int| 0 <= j <= i implies value_le(
                    #[trigger] d@[j]@,
                    d@[i as int]@,
                ) by {
                    if j < i {
                        lemma_value_le_trans(d@[j]@, d@[hi as int]@, d@[i as int]@);
                    } else {
                        lemma_value_le_total(d@[j]@, d@[j]@);
                    }
                }
            }
        }
        if below {
            lo = i;
        }
        if above {
            hi = i;
        }
        i += 1;
    }
    (lo, hi)
}

impl PageStatistics {
    pub open spec fn spec_null_count(&self) -> u64 {
        match self {
            PageStatistics::Bool(s) => s.null_count,
            PageStatistics::F64(s) => s.null_count,
            PageStatistics::I64(s) => s.null_count,
            PageStatistics::U64(s) => s.null_count,
            PageStatistics::Bytes(s) => s.null_count,
        }
    }

    /// The least present value, as a value of the column.
    pub open spec fn spec_min(&self) -> Option<FieldValue> {
        match self {
            PageStatistics::Bool(s) => match s.min {
                Some(x) => Some(FieldValue::Boolean(x)),
                None => None,
            },
            PageStatistics::F64(s) => match s.min {
                Some(x) => Some(FieldValue::Float(x)),
                None => None,
            },
            PageStatistics::I64(s) => match s.min {
                Some(x) => Some(FieldValue::Integer(x)),
                None => None,
            },
            PageStatistics::U64(s) => match s.min {
                Some(x) => Some(FieldValue::Unsigned(x)),
                None => None,
            },
            PageStatistics::Bytes(s) => match s.min {
                Some(x) => Some(FieldValue::Bytes(x@)),
                None => None,
            },
        }
    }

    /// The greatest present value, as a value of the column.
    pub open spec fn spec_max(&self) -> Option<FieldValue> {
        match self {
            PageStatistics::Bool(s) => match s.max {
                Some(x) => Some(FieldValue::Boolean(x)),
                None => None,
            },
            PageStatistics::F64(s) => match s.max {
                Some(x) => Some(FieldValue::Float(x)),
                None => None,
            },
            PageStatistics::I64(s) => match s.max {
                Some(x) => Some(FieldValue::Integer(x)),
                None => None,
            },
            PageStatistics::U64(s) => match s.max {
                Some(x) => Some(FieldValue::Unsigned(x)),
                None => None,
            },
            PageStatistics::Bytes(s) => match s.max {
                Some(x) => Some(FieldValue::Bytes(x@)),
                None => None,
            },
        }
    }

    /// The value type these statistics are kept for.
    pub open spec fn spec_value_type(&self) -> ValueType {
        match self {
            PageStatistics::Bool(_) => ValueType::Boolean,
            PageStatistics::F64(_) => ValueType::Float,
            PageStatistics::I64(_) => ValueType::Integer,
            PageStatistics::U64(_) => ValueType::Unsigned,
            PageStatistics::Bytes(_) => ValueType::String,
        }
    }

    pub fn null_count(&self) -> (r: u64)
        ensures
            r == self.spec_null_count(),
    {
        match self {
            PageStatistics::Bool(s) => s.null_count,
            PageStatistics::F64(s) => s.null_count,
            PageStatistics::I64(s) => s.null_count,
            PageStatistics::U64(s) => s.null_count,
            PageStatistics::Bytes(s) => s.null_count,
        }
    }
}

fn copy_bound(v: &FieldVal) -> (r: FieldVal)
    ensures
        r@ == v@,
{
    v.clone()
}

/// The statistics of a page of type `vt` whose present values are `dense`,
/// out of `rows` rows.
pub fn compute(vt: ValueType, dense: &Vec<FieldVal>, rows: u64) -> (r: PageStatistics)
    requires
        vt != ValueType::Unknown,
        dense@.len() <= rows,
        forall|i: int|
            0 <= i < dense@.len() ==> crate::schema::value_fits(vt, #[trigger] dense@[i]@),
    ensures
        r.spec_value_type() == vt,
        r.spec_null_count() == rows - dense@.len(),
        dense@.len() == 0 ==> r.spec_min() is None && r.spec_max() is None,
        dense@.len() > 0 ==> (r.spec_min() matches Some(m) && is_min_of(
            m,
            dense@.map_values(|v: FieldVal| v@),
        )),
        dense@.len() > 0 ==> (r.spec_max() matches Some(m) && is_max_of(
            m,
            dense@.map_values(|v: FieldVal| v@),
        )),
{
    let nulls = rows - dense.len() as u64;
    let ghost dv = dense@.map_values(|v: FieldVal| v@);
    let mut min: Option<FieldVal> = None;
    let mut max: Option<FieldVal> = None;
    if dense.len() > 0 {
        proof {
            assert forall|i: int, j: int|
                0 <= i < dv.len() && 0 <= j < dv.len() implies same_kind(
                #[trigger] dv[i],
                #[trigger] dv[j],
            ) by {
                assert(crate::schema::value_fits(vt, dense@[i]@));
                assert(crate::schema::value_fits(vt, dense@[j]@));
            }
        }
        let (lo, hi) = bounds_positions(dense);
        min = Some(copy_bound(&dense[lo]));
        max = Some(copy_bound(&dense[hi]));
        proof {
            assert(dv[lo as int] == dense@[lo as int]@);
            assert(dv[hi as int] == dense@[hi as int]@);
            assert forall|j: int| 0 <= j < dv.len() implies value_le(dv[lo as int], #[trigger] dv[j])
                && value_le(dv[j], dv[hi as int]) by {
                assert(dv[j] == dense@[j]@);
            }
        }
    }
    proof {
        if dense@.len() > 0 {
            assert(crate::schema::value_fits(vt, min.unwrap()@));
            assert(crate::schema::value_fits(vt, max.unwrap()@));
        }
    }
    match vt {
        ValueType::Boolean => {
            let lo = match min {
                Some(FieldVal::Boolean(b)) => Some(b),
                _ => None,
            };
            let hi = match max {
                Some(FieldVal::Boolean(b)) => Some(b),
                _ => None,
            };
            PageStatistics::Bool(
                ValueStatistics { min: lo, max: hi, distinct_count: None, null_count: nulls },
            )
        },
        ValueType::Float => {
            let lo = match min {
                Some(FieldVal::Float(b)) => Some(b),
                _ => None,
            };
            let hi = match max {
                Some(FieldVal::Float(b)) => Some(b),
                _ => None,
            };
            PageStatistics::F64(
                ValueStatistics { min: lo, max: hi, distinct_count: None, null_count: nulls },
            )
        },
        ValueType::Unsigned => {
            let lo = match min {
                Some(FieldVal::Unsigned(b)) => Some(b),
                _ => None,
            };
            let hi = match max {
                Some(FieldVal::Unsigned(b)) => Some(b),
                _ => None,
            };
            PageStatistics::U64(
                ValueStatistics { min: lo, max: hi, distinct_count: None, null_count: nulls },
            )
        },
        ValueType::String => {
            let lo = match min {
                Some(FieldVal::Bytes(b)) => Some(b),
                _ => None,
            };
            let hi = match max {
                Some(FieldVal::Bytes(b)) => Some(b),
                _ => None,
            };
            PageStatistics::Bytes(
                ValueStatistics { min: lo, max: hi, distinct_count: None, null_count: nulls },
            )
        },
        _ => {
            let lo = match min {
                Some(FieldVal::Integer(b)) => Some(b),
                _ => None,
            };
            let hi = match max {
                Some(FieldVal::Integer(b)) => Some(b),
                _ => None,
            };
            PageStatistics::I64(
                ValueStatistics { min: lo, max: hi, distinct_count: None, null_count: nulls },
            )
        },
    }
}

} // verus!
