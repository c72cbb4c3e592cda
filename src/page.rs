//! Pages: the encoded values of one column in one column group.
//!
//! A page is laid out as `[u32 bitmap_len][u64 rows][u32 crc][bitmap][payload]`,
//! integers big-endian. Bit `i` of the bitmap is set where row `i` holds a
//! value; the payload is the encoding of the present values, and the checksum
//! covers the payload alone.
use vstd::prelude::*;

use crate::bitset::{bit_of, bytes_for_bits, count_true, get_bit, BitSet};
use crate::checksum::{crc32, crc32_of};
use crate::codec::{all_fit, decode, decoded, dense_view, encode};
use crate::endian::{
    be32, be32_value, be64, be64_value, get_u32, get_u64, lemma_be32_round_trip,
    lemma_be64_round_trip, put_u32, put_u64,
};
use crate::error::{Error, PageFault};
use crate::schema::{
    column_view, Column, ColumnType, FieldVal, FieldValue, TableColumn, ValueType, value_fits,
};
use crate::statistics::{compute, is_max_of, is_min_of, PageStatistics};

verus! {

/// The length of the fixed header that precedes the bitmap.
pub const PAGE_HEADER_LEN: usize = 16;

pub open spec fn header_ok(b: Seq<u8>) -> bool {
    b.len() >= 16 && 16 + be32_value(b.subrange(0, 4)) <= b.len()
}

pub open spec fn bitmap_len(b: Seq<u8>) -> int {
    be32_value(b.subrange(0, 4)) as int
}

/// The row count the header declares.
pub open spec fn page_rows(b: Seq<u8>) -> u64 {
    be64_value(b.subrange(4, 12))
}

pub open spec fn stored_crc(b: Seq<u8>) -> u32 {
    be32_value(b.subrange(12, 16))
}

pub open spec fn page_bitmap(b: Seq<u8>) -> Seq<u8> {
    b.subrange(16, 16 + bitmap_len(b))
}

pub open spec fn page_payload(b: Seq<u8>) -> Seq<u8> {
    b.subrange(16 + bitmap_len(b), b.len() as int)
}

/// Whether the stored checksum matches the payload.
pub open spec fn crc_ok(b: Seq<u8>) -> bool {
    header_ok(b) && stored_crc(b) == crc32(page_payload(b))
}

/// Whether the bitmap holds a bit for each declared row.
pub open spec fn mask_ok(b: Seq<u8>) -> bool {
    header_ok(b) && bytes_for_bits(page_rows(b) as nat) <= bitmap_len(b) && page_rows(b)
        <= usize::MAX
}

/// For each declared row, whether it holds a value.
pub open spec fn null_mask(b: Seq<u8>) -> Seq<bool> {
    Seq::new(page_rows(b) as nat, |i: int| bit_of(page_bitmap(b), i))
}

/// Places the dense values at the set bits, in order, and nulls elsewhere.
pub open spec fn scatter(bits: Seq<bool>, dense: Seq<FieldValue>) -> Seq<Option<FieldValue>> {
    Seq::new(
        bits.len(),
        |i: int|
            if bits[i] {
                Some(dense[count_true(bits.take(i)) as int])
            } else {
                None
            },
    )
}

/// The present values of a column, in order.
pub open spec fn present(vs: Seq<Option<FieldValue>>) -> Seq<FieldValue>
    decreases vs.len(),
{
    if vs.len() == 0 {
        Seq::empty()
    } else {
        present(vs.drop_last()) + match vs.last() {
            Some(v) => seq![v],
            None => Seq::empty(),
        }
    }
}

/// The number of present entries of a column.
pub open spec fn count_present(vs: Seq<Option<FieldValue>>) -> nat
    decreases vs.len(),
{
    if vs.len() == 0 {
        0
    } else {
        count_present(vs.drop_last()) + if vs.last() is Some { 1nat } else { 0nat }
    }
}

/// Why a page cannot be read as a column.
#[derive(Clone, Copy, Debug, PartialEq, Eq, Structural)]
pub enum ReadFault {
    Tag,
    Unsupported,
    Header,
    Decode,
    Short,
}

/// The column a page of a column of type `ct` reads as.
pub open spec fn page_column(ct: ColumnType, b: Seq<u8>) -> Result<
    Seq<Option<FieldValue>>,
    ReadFault,
> {
    match ct.spec_physical() {
        None => Err(ReadFault::Tag),
        Some(vt) => if vt == ValueType::Unknown {
            Err(ReadFault::Unsupported)
        } else if !header_ok(b) {
            Err(ReadFault::Header)
        } else {
            match decoded(vt, page_payload(b)) {
                None => Err(ReadFault::Decode),
                Some(d) => if !mask_ok(b) {
                    Err(ReadFault::Header)
                } else if count_true(null_mask(b)) > d.len() {
                    Err(ReadFault::Short)
                } else {
                    Ok(scatter(null_mask(b), d))
                },
            }
        },
    }
}

/// Whether `b` is a page that holds the column `vals` of type `vt`.
pub open spec fn is_page_of(b: Seq<u8>, vt: ValueType, vals: Seq<Option<FieldValue>>) -> bool {
    &&& header_ok(b)
    &&& page_rows(b) == vals.len()
    &&& bitmap_len(b) == bytes_for_bits(vals.len())
    &&& forall|i: int| 0 <= i < vals.len() ==> #[trigger] bit_of(page_bitmap(b), i) == vals[i] is Some
    &&& decoded(vt, page_payload(b)) == Some(present(vals))
    &&& stored_crc(b) == crc32(page_payload(b))
}

/// Whether every present value of `vals` is of type `vt`.
pub open spec fn column_fits(vt: ValueType, vals: Seq<Option<FieldValue>>) -> bool {
    forall|i: int| 0 <= i < vals.len() ==> (#[trigger] vals[i] matches Some(v) ==> value_fits(vt, v))
}

/// Metadata of a page.
#[derive(Debug)]
pub struct PageMeta {
    pub num_values: u32,
    pub column: TableColumn,
    pub statistics: PageStatistics,
}

/// A page: its bytes and its metadata.
#[derive(Debug)]
pub struct Page {
    pub bytes: Vec<u8>,
    pub meta: PageMeta,
}

impl Page {
    pub fn new(bytes: Vec<u8>, meta: PageMeta) -> (r: Self)
        ensures
            r.bytes@ == bytes@,
            r.meta == meta,
    {
        Page { bytes, meta }
    }

    pub fn bytes(&self) -> (r: &[u8])
        ensures
            r@ == self.bytes@,
    {
        self.bytes.as_slice()
    }

    pub fn meta(&self) -> (r: &PageMeta)
        ensures
            *r == self.meta,
    {
        &self.meta
    }

    pub fn desc(&self) -> (r: &TableColumn)
        ensures
            *r == self.meta.column,
    {
        &self.meta.column
    }

    /// Checks the stored checksum against the payload. On a mismatch the page
    /// comes back inside the error.
    pub fn crc_validation(self) -> (r: Result<Page, Error>)
        ensures
            !header_ok(self.bytes@) <==> r matches Err(Error::TsmPageError { reason: PageFault::HeaderTruncated }),
            header_ok(self.bytes@) && crc_ok(self.bytes@) <==> r is Ok,
            r matches Ok(p) ==> p.bytes@ == self.bytes@ && p.meta == self.meta,
            header_ok(self.bytes@) && !crc_ok(self.bytes@) <==> r is Err && !(r matches Err(Error::TsmPageError { .. })),
            r matches Err(Error::PageHashCheckFailed { crc, crc_calculated, page }) ==> crc
                == stored_crc(self.bytes@) && crc_calculated == crc32(page_payload(self.bytes@))
                && crc != crc_calculated && page.bytes@ == self.bytes@ && page.meta == self.meta,
            r matches Err(e) ==> (e is PageHashCheckFailed || e is TsmPageError),
    {
        let b = self.bytes.as_slice();
        if b.len() < PAGE_HEADER_LEN {
            return Err(Error::TsmPageError { reason: PageFault::HeaderTruncated });
        }
        let bl = get_u32(b, 0) as usize;
        proof {
            assert(b@.subrange(0, 4) == self.bytes@.subrange(0, 4));
        }
        if b.len() - PAGE_HEADER_LEN < bl {
            return Err(Error::TsmPageError { reason: PageFault::HeaderTruncated });
        }
        let crc = get_u32(b, 12);
        let payload = vstd::slice::slice_subrange(b, PAGE_HEADER_LEN + bl, b.len());
        let crc_calculated = crc32_of(payload);
        if crc != crc_calculated {
            return Err(Error::PageHashCheckFailed { crc, crc_calculated, page: self });
        }
        Ok(self)
    }

    /// The bitmap bytes, when the header is whole.
    pub fn null_bitset_slice(&self) -> (r: Option<&[u8]>)
        ensures
            r is Some <==> header_ok(self.bytes@),
            r matches Some(s) ==> s@ == page_bitmap(self.bytes@),
    {
        let b = self.bytes.as_slice();
        if b.len() < PAGE_HEADER_LEN {
            return None;
        }
        let bl = get_u32(b, 0) as usize;
        if b.len() - PAGE_HEADER_LEN < bl {
            return None;
        }
        Some(vstd::slice::slice_subrange(b, PAGE_HEADER_LEN, PAGE_HEADER_LEN + bl))
    }

    /// The payload bytes, when the header is whole.
    pub fn data_buffer(&self) -> (r: Option<&[u8]>)
        ensures
            r is Some <==> header_ok(self.bytes@),
            r matches Some(s) ==> s@ == page_payload(self.bytes@),
    {
        let b = self.bytes.as_slice();
        if b.len() < PAGE_HEADER_LEN {
            return None;
        }
        let bl = get_u32(b, 0) as usize;
        if b.len() - PAGE_HEADER_LEN < bl {
            return None;
        }
        Some(vstd::slice::slice_subrange(b, PAGE_HEADER_LEN + bl, b.len()))
    }

    /// The null mask, when the bitmap holds a bit for each declared row.
    pub fn null_bitset(&self) -> (r: Option<BitSet>)
        ensures
            r is Some <==> mask_ok(self.bytes@),
            r matches Some(s) ==> s.wf() && s@ == null_mask(self.bytes@),
    {
        let bm = match self.null_bitset_slice() {
            Some(s) => s,
            None => {
                return None;
            },
        };
        let rows = get_u64(self.bytes.as_slice(), 4);
        if rows / 8 + (if rows % 8 == 0 { 0 } else { 1 }) > bm.len() as u64 || rows
            > usize::MAX as u64 {
            return None;
        }
        let mut buffer: Vec<u8> = Vec::new();
        let n = rows as usize / 8 + (if rows % 8 == 0 { 0 } else { 1 });
        buffer.extend_from_slice(vstd::slice::slice_subrange(bm, 0, n));
        let r = BitSet::from_bytes(rows as usize, buffer);
        proof {
            let s = r.unwrap();
            assert forall|i: int| 0 <= i < rows implies bit_of(buffer@, i) == bit_of(bm@, i) by {
                assert(buffer@[i / 8] == bm@[i / 8]);
            }
            assert(s@ =~= null_mask(self.bytes@));
        }
        r
    }

    /// Reads the page as a column of its column's type.
    pub fn to_column(&self) -> (r: Result<Column, Error>)
        ensures
            match page_column(self.meta.column.column_type, self.bytes@) {
                Ok(vals) => r matches Ok(c) && c.view_values() == vals && c.column_type
                    == self.meta.column.column_type,
                Err(ReadFault::Tag) => r matches Err(Error::TsmPageError { reason: PageFault::TagColumn }),
                Err(ReadFault::Unsupported) => r matches Err(Error::UnsupportedDataType { .. }),
                Err(ReadFault::Header) => r matches Err(Error::TsmPageError { reason: PageFault::HeaderTruncated }),
                Err(ReadFault::Decode) => r matches Err(Error::Decode),
                Err(ReadFault::Short) => r matches Err(Error::TsmPageError { reason: PageFault::DataBufferShort }),
            },
    {
        let ct = self.meta.column.column_type;
        let vt = match ct.physical_type() {
            None => {
                return Err(Error::TsmPageError { reason: PageFault::TagColumn });
            },
            Some(vt) => vt,
        };
        if vt == ValueType::Unknown {
            return Err(Error::UnsupportedDataType { dt: vt });
        }
        let payload = match self.data_buffer() {
            None => {
                return Err(Error::TsmPageError { reason: PageFault::HeaderTruncated });
            },
            Some(p) => p,
        };
        let dense = match decode(vt, payload) {
            None => {
                return Err(Error::Decode);
            },
            Some(d) => d,
        };
        let mask = match self.null_bitset() {
            None => {
                return Err(Error::TsmPageError { reason: PageFault::HeaderTruncated });
            },
            Some(m) => m,
        };
        let ghost bits = mask@;
        let ghost dv = dense_view(dense@);
        let rows = mask.len();
        let mut values: Vec<Option<FieldVal>> = Vec::new();
        let mut k: usize = 0;
        let mut i: usize = 0;
        while i < rows
            invariant
                ct == self.meta.column.column_type,
                ct.spec_physical() == Some(vt),
                vt != ValueType::Unknown,
                decoded(vt, page_payload(self.bytes@)) == Some(dv),
                mask@ == bits,
                mask.wf(),
                bits == null_mask(self.bytes@),
                rows == bits.len(),
                mask_ok(self.bytes@),
                dv == dense_view(dense@),
                i <= rows,
                k == count_true(bits.take(i as int)),
                k <= dense@.len(),
                values@.len() == i,
                column_view(values@) == scatter(bits, dv).take(i as int),
            decreases rows - i,
        {
            proof {
                assert(bits.take(i + 1).drop_last() =~= bits.take(i as int));
            }
            if mask.get(i) {
                if k >= dense.len() {
                    proof {
                        assert(bits.take(i + 1).last() == bits[i as int]);
                        assert(count_true(bits.take(i + 1)) == k + 1);
                        lemma_count_true_prefix(bits, i + 1);
                        assert(count_true(bits) > dv.len());
                        assert(decoded(vt, page_payload(self.bytes@)) == Some(dv));
                    }
                    return Err(Error::TsmPageError { reason: PageFault::DataBufferShort });
                }
                let v = dense[k].clone();
                proof {
                    assert(dv[k as int] == dense@[k as int]@);
                    assert(scatter(bits, dv)[i as int] == Some(v@));
                }
                let ghost before = values@;
                values.push(Some(v));
                proof {
                    assert(values@ == before.push(Some(v)));
                    assert(column_view(values@)[i as int] == Some(v@));
                }
                k += 1;
            } else {
                proof {
                    assert(scatter(bits, dv)[i as int] == None::<FieldValue>);
                }
                let ghost before = values@;
                values.push(None);
                proof {
                    assert(values@ == before.push(None));
                    assert(column_view(values@)[i as int] == None::<FieldValue>);
                }
            }
            proof {
                assert(column_view(values@) =~= scatter(bits, dv).take(i + 1));
            }
            i += 1;
        }
        proof {
            assert(bits.take(rows as int) =~= bits);
            assert(scatter(bits, dv).take(rows as int) =~= scatter(bits, dv));
        }
        Ok(Column { column_type: ct, values })
    }

    /// Builds the page of a column from its values, one entry per row.
    pub fn build(column: TableColumn, values: &Vec<Option<FieldVal>>) -> (r: Result<Page, Error>)
        requires
            values@.len() <= u32::MAX,
        ensures
            match column.column_type.spec_physical() {
                None => r matches Err(Error::TsmPageError { reason: PageFault::TagColumn }),
                Some(vt) => if vt == ValueType::Unknown {
                    r matches Err(Error::UnsupportedDataType { .. })
                } else if !column_fits(vt, column_view(values@)) {
                    r matches Err(Error::TsmPageError { reason: PageFault::ValueTypeMismatch })
                } else {
                    r matches Ok(p) && is_page_of(p.bytes@, vt, column_view(values@))
                        && p.meta.num_values == values@.len() && p.meta.column == column
                        && p.meta.statistics.spec_value_type() == vt
                        && p.meta.statistics.spec_null_count() == values@.len() - present(
                        column_view(values@),
                    ).len() && (present(column_view(values@)).len() == 0
                        ==> p.meta.statistics.spec_min() is None
                        && p.meta.statistics.spec_max() is None) && (present(
                        column_view(values@),
                    ).len() > 0 ==> (p.meta.statistics.spec_min() matches Some(m) && is_min_of(
                        m,
                        present(column_view(values@)),
                    )) && (p.meta.statistics.spec_max() matches Some(m) && is_max_of(
                        m,
                        present(column_view(values@)),
                    )))
                },
            },
    {
        let vt = match column.column_type.physical_type() {
            None => {
                return Err(Error::TsmPageError { reason: PageFault::TagColumn });
            },
            Some(vt) => vt,
        };
        if vt == ValueType::Unknown {
            return Err(Error::UnsupportedDataType { dt: vt });
        }
        let ghost cv = column_view(values@);
        let n = values.len();
        let mut mask = BitSet::with_len(n);
        let mut dense: Vec<FieldVal> = Vec::new();
        let mut i: usize = 0;
        while i < n
            invariant
                column.column_type.spec_physical() == Some(vt),
                n == values@.len(),
                n <= u32::MAX,
                cv == column_view(values@),
                vt != ValueType::Unknown,
                i <= n,
                mask.wf(),
                mask@.len() == n,
                forall|j: int| 0 <= j < n ==> #[trigger] mask@[j] == (j < i && cv[j] is Some),
                dense_view(dense@) == present(cv.take(i as int)),
                column_fits(vt, cv.take(i as int)),
                dense@.len() <= i,
            decreases n - i,
        {
            proof {
                assert(cv.take(i + 1).drop_last() =~= cv.take(i as int));
            }
            match &values[i] {
                Some(v) => {
                    if !fits(vt, v) {
                        proof {
                            assert(values@[i as int] == Some(*v));
                            assert(cv[i as int] == Some(v@));
                            assert(!value_fits(vt, v@));
                            assert(!(cv[i as int] matches Some(w) ==> value_fits(vt, w)));
                        }
                        return Err(Error::TsmPageError { reason: PageFault::ValueTypeMismatch });
                    }
                    mask.set(i);
                    dense.push(v.clone());
                    proof {
                        assert(dense_view(dense@) =~= present(cv.take(i + 1)));
                    }
                },
                None => {
                    proof {
                        assert(dense_view(dense@) =~= present(cv.take(i + 1)));
                    }
                },
            }
            proof {
                assert forall|j: int| 0 <= j < i + 1 implies (#[trigger] cv.take(i + 1)[j] matches Some(
                    v,
                ) ==> value_fits(vt, v)) by {
                    if j < i {
                        assert(cv.take(i + 1)[j] == cv.take(i as int)[j]);
                    }
                }
            }
            i += 1;
        }
        proof {
            assert(cv.take(n as int) =~= cv);
        }
        let ghost dv = dense_view(dense@);
        proof {
            lemma_present_fits(vt, cv);
            assert forall|j: int| 0 <= j < dense@.len() implies value_fits(vt, #[trigger] dense@[j]@) by {
                assert(dense@[j]@ == dv[j]);
            }
        }
        proof {
            assert(all_fit(vt, dv));
        }
        let payload = encode(vt, &dense);
        let crc = crc32_of(payload.as_slice());
        let bitmap = mask.bytes();
        let mut bytes: Vec<u8> = Vec::new();
        put_u32(&mut bytes, bitmap.len() as u32);
        put_u64(&mut bytes, n as u64);
        put_u32(&mut bytes, crc);
        bytes.extend_from_slice(bitmap);
        bytes.extend_from_slice(payload.as_slice());
        proof {
            lemma_page_layout(bitmap@, n as u64, crc, payload@);
            assert(bytes@ =~= be32(bitmap@.len() as u32) + be64(n as u64) + be32(crc) + bitmap@
                + payload@);
            assert forall|j: int| 0 <= j < n implies #[trigger] bit_of(page_bitmap(bytes@), j)
                == cv[j] is Some by {
                assert(mask@[j] == bit_of(bitmap@, j));
            }
        }
        let statistics = compute(vt, &dense, n as u64);
        let meta = PageMeta { num_values: n as u32, column, statistics };
        Ok(Page { bytes, meta })
    }
}

fn fits(vt: ValueType, v: &FieldVal) -> (r: bool)
    ensures
        r == value_fits(vt, v@),
{
    match (vt, v) {
        (ValueType::Integer, FieldVal::Integer(_)) => true,
        (ValueType::Unsigned, FieldVal::Unsigned(_)) => true,
        (ValueType::Float, FieldVal::Float(_)) => true,
        (ValueType::Boolean, FieldVal::Boolean(_)) => true,
        (ValueType::String, FieldVal::Bytes(s)) => s.len() <= u32::MAX as usize,
        _ => false,
    }
}

proof fn lemma_page_layout(bm: Seq<u8>, rows: u64, crc: u32, payload: Seq<u8>)
    requires
        bm.len() <= u32::MAX,
    ensures
        ({
            let b = be32(bm.len() as u32) + be64(rows) + be32(crc) + bm + payload;
            &&& header_ok(b)
            &&& bitmap_len(b) == bm.len()
            &&& page_rows(b) == rows
            &&& stored_crc(b) == crc
            &&& page_bitmap(b) == bm
            &&& page_payload(b) == payload
        }),
{
    let b = be32(bm.len() as u32) + be64(rows) + be32(crc) + bm + payload;
    lemma_be32_round_trip(bm.len() as u32);
    lemma_be64_round_trip(rows);
    lemma_be32_round_trip(crc);
    assert(b.subrange(0, 4) =~= be32(bm.len() as u32));
    assert(b.subrange(4, 12) =~= be64(rows));
    assert(b.subrange(12, 16) =~= be32(crc));
    assert(b.subrange(16, 16 + bm.len() as int) =~= bm);
    assert(b.subrange(16 + bm.len() as int, b.len() as int) =~= payload);
}

proof fn lemma_count_true_prefix(s: Seq<bool>, i: int)
    requires
        0 <= i <= s.len(),
    ensures
        count_true(s.take(i)) <= count_true(s),
    decreases s.len() - i,
{
    if i < s.len() {
        assert(s.take(i + 1).drop_last() =~= s.take(i));
        lemma_count_true_prefix(s, i + 1);
    } else {
        assert(s.take(i) =~= s);
    }
}

proof fn lemma_present_fits(vt: ValueType, vs: Seq<Option<FieldValue>>)
    requires
        column_fits(vt, vs),
    ensures
        all_fit(vt, present(vs)),
    decreases vs.len(),
{
    if vs.len() > 0 {
        let init = vs.drop_last();
        assert(column_fits(vt, init)) by {
            assert forall|i: int| 0 <= i < init.len() implies (#[trigger] init[i] matches Some(v)
                ==> value_fits(vt, v)) by {
                assert(init[i] == vs[i]);
            }
        }
        lemma_present_fits(vt, init);
        assert(vs[vs.len() - 1] == vs.last());
    }
}

/// Each entry of `vs` up to `i` is placed in `present(vs)` after the present
/// entries before it.
proof fn lemma_present_prefix(vs: Seq<Option<FieldValue>>, i: int)
    requires
        0 <= i <= vs.len(),
    ensures
        present(vs.take(i)).len() <= present(vs).len(),
        forall|j: int| 0 <= j < present(vs.take(i)).len() ==> #[trigger] present(vs.take(i))[j] == present(vs)[j],
    decreases vs.len() - i,
{
    if i < vs.len() {
        assert(vs.take(i + 1).drop_last() =~= vs.take(i));
        lemma_present_prefix(vs, i + 1);
        let a = present(vs.take(i));
        let b = present(vs.take(i + 1));
        assert forall|j: int| 0 <= j < a.len() implies #[trigger] a[j] == present(vs)[j] by {
            assert(b[j] == a[j]);
        }
    } else {
        assert(vs.take(i) =~= vs);
    }
}

proof fn lemma_count_matches_present(vs: Seq<Option<FieldValue>>, bits: Seq<bool>)
    requires
        bits.len() == vs.len(),
        forall|i: int| 0 <= i < vs.len() ==> #[trigger] bits[i] == vs[i] is Some,
    ensures
        count_true(bits) == present(vs).len(),
        count_true(bits) == count_present(vs),
    decreases vs.len(),
{
    if vs.len() > 0 {
        lemma_count_matches_present(vs.drop_last(), bits.drop_last());
        assert(bits[bits.len() - 1] == vs[vs.len() - 1] is Some);
    }
}

/// A page built from a column passes checksum validation.
pub proof fn lemma_built_page_crc(b: Seq<u8>, vt: ValueType, vals: Seq<Option<FieldValue>>)
    requires
        is_page_of(b, vt, vals),
    ensures
        crc_ok(b),
        crc32(page_payload(b)) == stored_crc(b),
{
}

/// A page that reads as a column has one entry per declared row, and as many
/// present entries as set bits in its null bitmap.
pub proof fn lemma_column_counts(ct: ColumnType, b: Seq<u8>)
    requires
        page_column(ct, b) is Ok,
    ensures
        page_column(ct, b)->Ok_0.len() == page_rows(b),
        count_present(page_column(ct, b)->Ok_0) == count_true(null_mask(b)),
{
    let vals = page_column(ct, b)->Ok_0;
    let bits = null_mask(b);
    lemma_count_matches_present(vals, bits);
}

/// Reading a built page gives back the column it was built from.
pub proof fn lemma_build_read_round_trip(ct: ColumnType, b: Seq<u8>, vals: Seq<Option<FieldValue>>)
    requires
        ct.spec_physical() matches Some(vt) && vt != ValueType::Unknown && is_page_of(b, vt, vals),
        vals.len() <= usize::MAX,
    ensures
        page_column(ct, b) == Ok::<Seq<Option<FieldValue>>, ReadFault>(vals),
{
    let vt = ct.spec_physical().unwrap();
    let bits = null_mask(b);
    let d = present(vals);
    assert(bits.len() == vals.len());
    assert forall|i: int| 0 <= i < vals.len() implies #[trigger] bits[i] == vals[i] is Some by {
        assert(bit_of(page_bitmap(b), i) == vals[i] is Some);
    }
    lemma_count_matches_present(vals, bits);
    let s = scatter(bits, d);
    assert forall|i: int| 0 <= i < vals.len() implies #[trigger] s[i] == vals[i] by {
        if vals[i] is Some {
            assert(bits[i]);
            let pre = vals.take(i);
            assert forall|j: int| 0 <= j < i implies #[trigger] bits.take(i)[j] == pre[j] is Some by {
                assert(bits.take(i)[j] == bits[j]);
                assert(pre[j] == vals[j]);
            }
            lemma_count_matches_present(pre, bits.take(i));
            assert(vals.take(i + 1).drop_last() =~= pre);
            assert(vals.take(i + 1).last() == vals[i]);
            assert(present(vals.take(i + 1)) == present(pre) + seq![vals[i]->Some_0]);
            lemma_present_prefix(vals, i + 1);
            assert(present(vals.take(i + 1))[present(pre).len() as int] == vals[i]->Some_0);
        }
    }
    assert(s =~= vals);
}

/// The place of a page in a file.
#[derive(Debug)]
pub struct PageWriteSpec {
    pub offset: u64,
    pub size: usize,
    pub meta: PageMeta,
}

impl PageWriteSpec {
    pub fn new(offset: u64, size: usize, meta: PageMeta) -> (r: Self)
        ensures
            r.offset == offset,
            r.size == size,
            r.meta == meta,
    {
        PageWriteSpec { offset, size, meta }
    }

    pub fn offset(&self) -> (r: u64)
        ensures
            r == self.offset,
    {
        self.offset
    }

    pub fn size(&self) -> (r: usize)
        ensures
            r == self.size,
    {
        self.size
    }

    pub fn meta(&self) -> (r: &PageMeta)
        ensures
            *r == self.meta,
    {
        &self.meta
    }
}

} // verus!
