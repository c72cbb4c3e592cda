//! The file footer: version, time range, where the table index and the
//! series index are, and a bloom filter over the series ids in the file.
//!
//! A footer is serialized as the version byte, then as big-endian eight-byte
//! integers the time range, the table meta and the series chunk offset and
//! size, then the filter's length in four big-endian bytes and its bytes.
//! A file ends with the footer's length as eight little-endian bytes.
use vstd::prelude::*;

use crate::bloom::{reports, BloomFilter};
use crate::endian::{
    be32, be32_value, be64, be64_value, get_u32, get_u64, get_u64_le, le64, le64_value,
    lemma_be32_round_trip, lemma_be64_round_trip, lemma_le64_round_trip, put_u32, put_u64,
    put_u64_le,
};
use crate::error::Error;
use crate::time_range::TimeRange;

verus! {

/// The default number of bits of a file's series bloom filter.
pub const BLOOM_FILTER_BITS: u64 = 1024 * 1024;

/// Where the chunk-group index of a file is.
#[derive(Clone, Copy, Debug, PartialEq, Eq, Structural)]
pub struct TableMeta {
    pub chunk_group_offset: u64,
    pub chunk_group_size: u64,
}

impl TableMeta {
    pub fn new(chunk_group_offset: u64, chunk_group_size: u64) -> (r: Self)
        ensures
            r.chunk_group_offset == chunk_group_offset,
            r.chunk_group_size == chunk_group_size,
    {
        TableMeta { chunk_group_offset, chunk_group_size }
    }

    pub fn chunk_group_offset(&self) -> (r: u64)
        ensures
            r == self.chunk_group_offset,
    {
        self.chunk_group_offset
    }

    pub fn chunk_group_size(&self) -> (r: u64)
        ensures
            r == self.chunk_group_size,
    {
        self.chunk_group_size
    }
}

/// The mathematical value of a `SeriesMeta`.
pub struct SeriesMetaView {
    pub bloom: Seq<u8>,
    pub chunk_offset: u64,
    pub chunk_size: u64,
}

/// The mathematical value of a `Footer`.
pub struct FooterView {
    pub version: u8,
    pub time_range: TimeRange,
    pub table: TableMeta,
    pub series: SeriesMetaView,
}

/// Where the chunks of a file are, and which series they hold.
#[derive(Debug)]
pub struct SeriesMeta {
    bloom_filter: BloomFilter,
    chunk_offset: u64,
    chunk_size: u64,
}

impl View for SeriesMeta {
    type V = SeriesMetaView;

    closed spec fn view(&self) -> SeriesMetaView {
        SeriesMetaView {
            bloom: self.bloom_filter.spec_bits(),
            chunk_offset: self.chunk_offset,
            chunk_size: self.chunk_size,
        }
    }
}

/// The bytes of a series meta.
pub open spec fn series_bytes(v: SeriesMetaView) -> Seq<u8> {
    be64(v.chunk_offset) + be64(v.chunk_size) + be32(v.bloom.len() as u32) + v.bloom
}

/// The series meta that `b` holds, if it holds one and nothing more.
pub open spec fn parse_series(b: Seq<u8>) -> Option<SeriesMetaView> {
    if b.len() >= 20 && 20 + be32_value(b.subrange(16, 20)) == b.len() {
        Some(
            SeriesMetaView {
                bloom: b.subrange(20, b.len() as int),
                chunk_offset: be64_value(b.subrange(0, 8)),
                chunk_size: be64_value(b.subrange(8, 16)),
            },
        )
    } else {
        None
    }
}

/// The bytes of a footer.
pub open spec fn footer_bytes(v: FooterView) -> Seq<u8> {
    seq![v.version] + be64(v.time_range.min_ts as u64) + be64(v.time_range.max_ts as u64) + be64(
        v.table.chunk_group_offset,
    ) + be64(v.table.chunk_group_size) + series_bytes(v.series)
}

/// The footer that `b` holds, if it holds one and nothing more.
pub open spec fn parse_footer(b: Seq<u8>) -> Option<FooterView> {
    if b.len() < 33 {
        None
    } else {
        match parse_series(b.subrange(33, b.len() as int)) {
            None => None,
            Some(s) => Some(
                FooterView {
                    version: b[0],
                    time_range: TimeRange {
                        min_ts: be64_value(b.subrange(1, 9)) as i64,
                        max_ts: be64_value(b.subrange(9, 17)) as i64,
                    },
                    table: TableMeta {
                        chunk_group_offset: be64_value(b.subrange(17, 25)),
                        chunk_group_size: be64_value(b.subrange(25, 33)),
                    },
                    series: s,
                },
            ),
        }
    }
}

fn bytes_equal(a: &[u8], b: &[u8]) -> (r: bool)
    ensures
        r == (a@ == b@),
{
    if a.len() != b.len() {
        return false;
    }
    let mut i: usize = 0;
    while i < a.len()
        invariant
            a@.len() == b@.len(),
            i <= a@.len(),
            forall|j: int| 0 <= j < i ==> a@[j] == b@[j],
        decreases a@.len() - i,
    {
        if a[i] != b[i] {
            return false;
        }
        i += 1;
    }
    assert(a@ =~= b@);
    true
}

fn put_series(out: &mut Vec<u8>, s: &SeriesMeta)
    requires
        s@.bloom.len() <= u32::MAX,
    ensures
        final(out)@ == old(out)@ + series_bytes(s@),
{
    put_u64(out, s.chunk_offset);
    put_u64(out, s.chunk_size);
    let bits = s.bloom_filter.bytes();
    put_u32(out, bits.len() as u32);
    out.extend_from_slice(bits);
    assert(final(out)@ =~= old(out)@ + series_bytes(s@));
}

fn read_series(b: &[u8], pos: usize) -> (r: Option<SeriesMeta>)
    requires
        pos <= b@.len(),
    ensures
        match parse_series(b@.subrange(pos as int, b@.len() as int)) {
            None => r is None,
            Some(v) => r matches Some(s) && s@ == v,
        },
{
    let ghost t = b@.subrange(pos as int, b@.len() as int);
    if b.len() - pos < 20 {
        return None;
    }
    let n = get_u32(b, pos + 16) as usize;
    proof {
        assert(b@.subrange(pos + 16, pos + 20) =~= t.subrange(16, 20));
    }
    if b.len() - pos - 20 != n {
        return None;
    }
    let chunk_offset = get_u64(b, pos);
    let chunk_size = get_u64(b, pos + 8);
    proof {
        assert(b@.subrange(pos as int, pos + 8) =~= t.subrange(0, 8));
        assert(b@.subrange(pos + 8, pos + 16) =~= t.subrange(8, 16));
    }
    let bloom_filter = BloomFilter::with_data(vstd::slice::slice_subrange(b, pos + 20, b.len()));
    proof {
        assert(b@.subrange(pos + 20, b@.len() as int) =~= t.subrange(20, t.len() as int));
    }
    Some(SeriesMeta { bloom_filter, chunk_offset, chunk_size })
}

impl SeriesMeta {
    pub fn new(bloom_filter: Vec<u8>, chunk_offset: u64, chunk_size: u64) -> (r: Self)
        ensures
            r@ == (SeriesMetaView { bloom: bloom_filter@, chunk_offset, chunk_size }),
    {
        SeriesMeta { bloom_filter: BloomFilter::with_data(bloom_filter.as_slice()), chunk_offset, chunk_size }
    }

    pub fn serialize(&self) -> (r: Result<Vec<u8>, Error>)
        ensures
            r is Ok <==> self@.bloom.len() <= u32::MAX,
            r matches Ok(b) ==> b@ == series_bytes(self@),
            r matches Err(e) ==> e is Serialize,
    {
        if self.bloom_filter.bytes().len() > u32::MAX as usize {
            return Err(Error::Serialize);
        }
        let mut out: Vec<u8> = Vec::new();
        put_series(&mut out, self);
        assert(out@ =~= series_bytes(self@));
        Ok(out)
    }

    pub fn deserialize(bytes: &[u8]) -> (r: Result<Self, Error>)
        ensures
            match parse_series(bytes@) {
                None => r matches Err(e) && e is Deserialize,
                Some(v) => r matches Ok(s) && s@ == v,
            },
    {
        assert(bytes@.subrange(0, bytes@.len() as int) =~= bytes@);
        match read_series(bytes, 0) {
            None => Err(Error::Deserialize),
            Some(s) => Ok(s),
        }
    }

    pub fn bloom_filter(&self) -> (r: &BloomFilter)
        ensures
            r.spec_bits() == self@.bloom,
    {
        &self.bloom_filter
    }

    pub fn chunk_offset(&self) -> (r: u64)
        ensures
            r == self@.chunk_offset,
    {
        self.chunk_offset
    }

    pub fn chunk_size(&self) -> (r: u64)
        ensures
            r == self@.chunk_size,
    {
        self.chunk_size
    }
}

impl PartialEq for SeriesMeta {
    fn eq(&self, o: &SeriesMeta) -> (r: bool) {
        self.chunk_offset == o.chunk_offset && self.chunk_size == o.chunk_size && bytes_equal(
            self.bloom_filter.bytes(),
            o.bloom_filter.bytes(),
        )
    }
}

impl vstd::std_specs::cmp::PartialEqSpecImpl for SeriesMeta {
    open spec fn obeys_eq_spec() -> bool {
        true
    }

    open spec fn eq_spec(&self, o: &SeriesMeta) -> bool {
        self@ == o@
    }
}

/// The trailer of a file.
#[derive(Debug)]
pub struct Footer {
    version: u8,
    time_range: TimeRange,
    table: TableMeta,
    series: SeriesMeta,
}

impl View for Footer {
    type V = FooterView;

    closed spec fn view(&self) -> FooterView {
        FooterView {
            version: self.version,
            time_range: self.time_range,
            table: self.table,
            series: self.series@,
        }
    }
}

impl PartialEq for Footer {
    fn eq(&self, o: &Footer) -> (r: bool) {
        self.version == o.version && self.time_range == o.time_range && self.table == o.table
            && self.series == o.series
    }
}

impl vstd::std_specs::cmp::PartialEqSpecImpl for Footer {
    open spec fn obeys_eq_spec() -> bool {
        true
    }

    open spec fn eq_spec(&self, o: &Footer) -> bool {
        self@ == o@
    }
}

impl Footer {
    pub fn new(version: u8, time_range: TimeRange, table: TableMeta, series: SeriesMeta) -> (r: Self)
        ensures
            r@ == (FooterView { version, time_range, table, series: series@ }),
    {
        Footer { version, time_range, table, series }
    }

    pub fn table(&self) -> (r: &TableMeta)
        ensures
            *r == self@.table,
    {
        &self.table
    }

    pub fn series(&self) -> (r: &SeriesMeta)
        ensures
            r@ == self@.series,
    {
        &self.series
    }

    pub fn time_range(&self) -> (r: &TimeRange)
        ensures
            *r == self@.time_range,
    {
        &self.time_range
    }

    pub fn version(&self) -> (r: u8)
        ensures
            r == self@.version,
    {
        self.version
    }

    pub fn serialize(&self) -> (r: Result<Vec<u8>, Error>)
        ensures
            r is Ok <==> self@.series.bloom.len() <= u32::MAX,
            r matches Ok(b) ==> b@ == footer_bytes(self@),
            r matches Err(e) ==> e is Serialize,
    {
        if self.series.bloom_filter.bytes().len() > u32::MAX as usize {
            return Err(Error::Serialize);
        }
        let mut out: Vec<u8> = Vec::new();
        out.push(self.version);
        put_u64(&mut out, self.time_range.min_ts as u64);
        put_u64(&mut out, self.time_range.max_ts as u64);
        put_u64(&mut out, self.table.chunk_group_offset);
        put_u64(&mut out, self.table.chunk_group_size);
        put_series(&mut out, &self.series);
        assert(out@ =~= footer_bytes(self@));
        Ok(out)
    }

    pub fn deserialize(bytes: &[u8]) -> (r: Result<Self, Error>)
        ensures
            match parse_footer(bytes@) {
                None => r matches Err(e) && e is Deserialize,
                Some(v) => r matches Ok(f) && f@ == v,
            },
    {
        if bytes.len() < 33 {
            return Err(Error::Deserialize);
        }
        let series = match read_series(bytes, 33) {
            None => {
                return Err(Error::Deserialize);
            },
            Some(s) => s,
        };
        let version = bytes[0];
        let min_ts = get_u64(bytes, 1) as i64;
        let max_ts = get_u64(bytes, 9) as i64;
        let chunk_group_offset = get_u64(bytes, 17);
        let chunk_group_size = get_u64(bytes, 25);
        Ok(
            Footer {
                version,
                time_range: TimeRange { min_ts, max_ts },
                table: TableMeta { chunk_group_offset, chunk_group_size },
                series,
            },
        )
    }

    /// Whether the series may have data in the file; never false for a series
    /// that was inserted into the filter.
    pub fn maybe_series_exist(&self, series_id: &u32) -> (r: bool)
        requires
            self@.series.bloom.len() * 8 <= usize::MAX,
        ensures
            r == reports(self@.series.bloom, crate::endian::le32(*series_id)),
    {
        let key = crate::endian::u32_le_bytes(*series_id);
        self.series.bloom_filter.maybe_contains(key.as_slice())
    }
}

/// The eight bytes that end a file whose footer is `footer_len` bytes long.
pub fn footer_trailer(footer_len: u64) -> (r: Vec<u8>)
    ensures
        r@ == le64(footer_len),
{
    let mut out: Vec<u8> = Vec::new();
    put_u64_le(&mut out, footer_len);
    assert(out@ =~= le64(footer_len));
    out
}

/// Where the footer of a file is, as a start and an end position: it ends
/// where the trailing length word begins, and that word gives its length.
pub open spec fn spec_footer_range(file: Seq<u8>) -> Option<(int, int)> {
    if file.len() < 8 {
        None
    } else {
        let n = le64_value(file.subrange(file.len() - 8, file.len() as int)) as int;
        if n > file.len() - 8 {
            None
        } else {
            Some((file.len() - 8 - n, file.len() - 8))
        }
    }
}

/// Locates the footer of a file from its trailing length word.
pub fn footer_range(file: &[u8]) -> (r: Option<(usize, usize)>)
    ensures
        match spec_footer_range(file@) {
            None => r is None,
            Some((s, e)) => r == Some((s as usize, e as usize)),
        },
{
    let len = file.len();
    if len < 8 {
        return None;
    }
    let n = get_u64_le(file, len - 8);
    if n > (len - 8) as u64 {
        return None;
    }
    let start = len - 8 - n as usize;
    Some((start, len - 8))
}

/// A file that ends with a footer and the footer's length word gives that
/// footer's place back.
pub proof fn lemma_footer_located(body: Seq<u8>, footer: Seq<u8>)
    requires
        footer.len() <= u64::MAX,
    ensures
        spec_footer_range(body + footer + le64(footer.len() as u64)) == Some(
            (body.len() as int, (body.len() + footer.len()) as int),
        ),
{
    let f = body + footer + le64(footer.len() as u64);
    lemma_le64_round_trip(footer.len() as u64);
    assert(f.subrange(f.len() - 8, f.len() as int) =~= le64(footer.len() as u64));
}

/// Deserializing a serialized series meta gives it back.
pub proof fn lemma_series_round_trip(v: SeriesMetaView)
    requires
        v.bloom.len() <= u32::MAX,
    ensures
        parse_series(series_bytes(v)) == Some(v),
{
    let b = series_bytes(v);
    lemma_be64_round_trip(v.chunk_offset);
    lemma_be64_round_trip(v.chunk_size);
    lemma_be32_round_trip(v.bloom.len() as u32);
    assert(b.subrange(0, 8) =~= be64(v.chunk_offset));
    assert(b.subrange(8, 16) =~= be64(v.chunk_size));
    assert(b.subrange(16, 20) =~= be32(v.bloom.len() as u32));
    assert(b.subrange(20, b.len() as int) =~= v.bloom);
}

/// Deserializing a serialized footer gives it back.
pub proof fn lemma_footer_round_trip(v: FooterView)
    requires
        v.series.bloom.len() <= u32::MAX,
    ensures
        parse_footer(footer_bytes(v)) == Some(v),
{
    let b = footer_bytes(v);
    let min = v.time_range.min_ts;
    let max = v.time_range.max_ts;
    lemma_be64_round_trip(min as u64);
    lemma_be64_round_trip(max as u64);
    lemma_be64_round_trip(v.table.chunk_group_offset);
    lemma_be64_round_trip(v.table.chunk_group_size);
    assert((min as u64) as i64 == min) by (bit_vector);
    assert((max as u64) as i64 == max) by (bit_vector);
    assert(b.subrange(1, 9) =~= be64(min as u64));
    assert(b.subrange(9, 17) =~= be64(max as u64));
    assert(b.subrange(17, 25) =~= be64(v.table.chunk_group_offset));
    assert(b.subrange(25, 33) =~= be64(v.table.chunk_group_size));
    assert(b.subrange(33, b.len() as int) =~= series_bytes(v.series));
    lemma_series_round_trip(v.series);
}

} // verus!
