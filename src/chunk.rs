//! Column groups, chunks and chunk groups: how pages are grouped in a file.
use vstd::prelude::*;

use crate::endian::{
    be32, be32_value, be64, be64_value, get_u32, get_u64, lemma_be32_round_trip,
    lemma_be64_round_trip, put_u32, put_u64,
};
use crate::error::{ColumnGroupFault, Error};
use crate::page::PageWriteSpec;
use crate::schema::{SeriesKey, TableColumn, TableSchema};
use crate::time_range::TimeRange;

verus! {

/// Whether the pages are back to back in the file and hold one row count.
pub open spec fn pages_aligned(pages: Seq<PageWriteSpec>) -> bool {
    &&& forall|i: int|
        0 <= i < pages.len() ==> #[trigger] pages[i].offset + pages[i].size <= u64::MAX
    &&& forall|i: int|
        0 <= i < pages.len() - 1 ==> #[trigger] pages[i + 1].offset == pages[i].offset
            + pages[i].size
    &&& forall|i: int, j: int|
        0 <= i < pages.len() && 0 <= j < pages.len() ==> #[trigger] pages[i].meta.num_values
            == #[trigger] pages[j].meta.num_values
}

pub open spec fn is_time_page(p: PageWriteSpec) -> bool {
    p.meta.column.column_type is Time
}

/// The first page of the time column in `pages`.
pub open spec fn first_time_page(pages: Seq<PageWriteSpec>) -> Option<PageWriteSpec>
    decreases pages.len(),
{
    if pages.len() == 0 {
        None
    } else if is_time_page(pages[0]) {
        Some(pages[0])
    } else {
        first_time_page(pages.drop_first())
    }
}

/// The pages of all columns of one series over one stretch of time.
#[derive(Debug)]
pub struct ColumnGroup {
    column_group_id: u64,
    pages_offset: u64,
    size: u64,
    time_range: TimeRange,
    pages: Vec<PageWriteSpec>,
}

impl ColumnGroup {
    pub closed spec fn spec_id(&self) -> u64 {
        self.column_group_id
    }

    pub closed spec fn spec_pages(&self) -> Seq<PageWriteSpec> {
        self.pages@
    }

    pub closed spec fn spec_pages_offset(&self) -> u64 {
        self.pages_offset
    }

    pub closed spec fn spec_size(&self) -> u64 {
        self.size
    }

    pub closed spec fn spec_time_range(&self) -> TimeRange {
        self.time_range
    }

    /// The pages are aligned; the group starts at its first page and spans
    /// to the end of its last.
    pub closed spec fn wf(&self) -> bool {
        let p = self.pages@;
        &&& pages_aligned(p)
        &&& p.len() == 0 ==> self.size == 0
        &&& p.len() > 0 ==> self.pages_offset == p[0].offset && self.pages_offset + self.size
            == p[p.len() - 1].offset + p[p.len() - 1].size
    }

    pub fn new(id: u64) -> (r: Self)
        ensures
            r.wf(),
            r.spec_id() == id,
            r.spec_pages().len() == 0,
            r.spec_size() == 0,
            r.spec_pages_offset() == 0,
            r.spec_time_range() == TimeRange::spec_none(),
    {
        ColumnGroup {
            column_group_id: id,
            pages_offset: 0,
            size: 0,
            time_range: TimeRange::none(),
            pages: Vec::new(),
        }
    }

    pub fn column_group_id(&self) -> (r: u64)
        ensures
            r == self.spec_id(),
    {
        self.column_group_id
    }

    /// Widens the group's time range to span `time_range` too.
    pub fn time_range_merge(&mut self, time_range: &TimeRange)
        ensures
            final(self).spec_time_range() == old(self).spec_time_range().spec_merged(*time_range),
            final(self).spec_id() == old(self).spec_id(),
            final(self).spec_pages() == old(self).spec_pages(),
            final(self).spec_size() == old(self).spec_size(),
            final(self).spec_pages_offset() == old(self).spec_pages_offset(),
            old(self).wf() ==> final(self).wf(),
    {
        self.time_range.merge(time_range)
    }

    pub fn pages_offset(&self) -> (r: u64)
        ensures
            r == self.spec_pages_offset(),
    {
        self.pages_offset
    }

    pub fn size(&self) -> (r: u64)
        ensures
            r == self.spec_size(),
    {
        self.size
    }

    pub fn time_range(&self) -> (r: &TimeRange)
        ensures
            *r == self.spec_time_range(),
    {
        &self.time_range
    }

    pub fn pages(&self) -> (r: &[PageWriteSpec])
        ensures
            r@ == self.spec_pages(),
    {
        self.pages.as_slice()
    }

    /// Appends a page that starts where the group ends and holds the group's
    /// row count.
    pub fn push(&mut self, page: PageWriteSpec) -> (r: Result<(), Error>)
        requires
            old(self).wf(),
        ensures
            final(self).wf(),
            final(self).spec_id() == old(self).spec_id(),
            final(self).spec_time_range() == old(self).spec_time_range(),
            ({
                let p = old(self).spec_pages();
                let fits = page.offset + page.size <= u64::MAX;
                let joins = p.len() == 0 || (page.offset == old(self).spec_pages_offset()
                    + old(self).spec_size() && page.meta.num_values == p[0].meta.num_values);
                &&& r is Ok <==> fits && joins
                &&& r is Ok ==> final(self).spec_pages() == p.push(page) && final(self).spec_size()
                    == old(self).spec_size() + page.size && final(self).spec_pages_offset() == (
                if p.len() == 0 {
                    page.offset
                } else {
                    old(self).spec_pages_offset()
                })
                &&& r is Err ==> final(self).spec_pages() == p && final(self).spec_size() == old(
                    self,
                ).spec_size() && final(self).spec_pages_offset() == old(self).spec_pages_offset()
                &&& r matches Err(e) ==> (e matches Error::TsmColumnGroupError {
                    reason: ColumnGroupFault::PageMisplaced { .. },
                })
            }),
    {
        let end = page.offset as u128 + page.size as u128;
        if end > u64::MAX as u128 {
            return Err(
                Error::TsmColumnGroupError {
                    reason: ColumnGroupFault::PageMisplaced {
                        expected_offset: self.pages_offset as u128 + self.size as u128,
                        offset: page.offset,
                    },
                },
            );
        }
        if self.pages.len() > 0 {
            if page.offset != self.pages_offset + self.size || page.meta.num_values
                != self.pages[0].meta.num_values {
                return Err(
                    Error::TsmColumnGroupError {
                        reason: ColumnGroupFault::PageMisplaced {
                            expected_offset: self.pages_offset as u128 + self.size as u128,
                            offset: page.offset,
                        },
                    },
                );
            }
            self.size = self.size + page.size as u64;
        } else {
            self.pages_offset = page.offset;
            self.size = page.size as u64;
        }
        let ghost before = self.pages@;
        self.pages.push(page);
        proof {
            let p = self.pages@;
            assert(p == before.push(page));
            assert forall|i: int, j: int|
                0 <= i < p.len() && 0 <= j < p.len() implies #[trigger] p[i].meta.num_values
                == #[trigger] p[j].meta.num_values by {
                if before.len() > 0 {
                    assert(p[i].meta.num_values == before[0].meta.num_values || i == p.len() - 1);
                    assert(p[j].meta.num_values == before[0].meta.num_values || j == p.len() - 1);
                    if i < before.len() {
                        assert(p[i] == before[i]);
                        assert(before[i].meta.num_values == before[0].meta.num_values);
                    }
                    if j < before.len() {
                        assert(p[j] == before[j]);
                        assert(before[j].meta.num_values == before[0].meta.num_values);
                    }
                }
            }
            assert forall|i: int| 0 <= i < p.len() - 1 implies #[trigger] p[i + 1].offset == p[i].offset
                + p[i].size by {
                if i + 1 < before.len() {
                    assert(p[i + 1] == before[i + 1] && p[i] == before[i]);
                }
            }
        }
        Ok(())
    }

    /// The row count of the group: that of its first page, or 0.
    pub fn row_len(&self) -> (r: u64)
        ensures
            self.spec_pages().len() == 0 ==> r == 0,
            self.spec_pages().len() > 0 ==> r == self.spec_pages()[0].meta.num_values,
    {
        if self.pages.len() == 0 {
            0
        } else {
            self.pages[0].meta.num_values as u64
        }
    }

    /// The first page of the time column.
    pub fn time_page_write_spec(&self) -> (r: Result<&PageWriteSpec, Error>)
        ensures
            r matches Ok(p) ==> first_time_page(self.spec_pages()) == Some(*p),
            r is Err <==> first_time_page(self.spec_pages()) is None,
            r matches Err(e) ==> (e == Error::TsmColumnGroupError {
                reason: ColumnGroupFault::NoTimePage { id: self.spec_id() },
            }),
    {
        let mut i: usize = 0;
        assert(self.pages@.skip(0) =~= self.pages@);
        while i < self.pages.len()
            invariant
                i <= self.pages@.len(),
                first_time_page(self.pages@) == first_time_page(self.pages@.skip(i as int)),
            decreases self.pages@.len() - i,
        {
            proof {
                assert(self.pages@.skip(i as int).drop_first() =~= self.pages@.skip(i + 1));
            }
            if self.pages[i].meta.column.column_type.is_time() {
                return Ok(&self.pages[i]);
            }
            i += 1;
        }
        proof {
            assert(self.pages@.skip(i as int).len() == 0);
        }
        Err(Error::TsmColumnGroupError { reason: ColumnGroupFault::NoTimePage { id: self.column_group_id } })
    }
}

/// The pages of a column group are back to back and hold one row count.
pub proof fn lemma_column_group_aligned(g: ColumnGroup)
    requires
        g.wf(),
    ensures
        forall|i: int, j: int|
            0 <= i < g.spec_pages().len() && 0 <= j < g.spec_pages().len() ==> #[trigger] g.spec_pages()[i].meta.num_values
                == #[trigger] g.spec_pages()[j].meta.num_values,
        forall|i: int|
            0 <= i < g.spec_pages().len() - 1 ==> #[trigger] g.spec_pages()[i + 1].offset
                == g.spec_pages()[i].offset + g.spec_pages()[i].size,
{
}

/// Whether the group at `m` has the smallest id of `groups`.
pub open spec fn is_least_id(groups: Seq<ColumnGroup>, m: int) -> bool {
    forall|k: int| 0 <= k < groups.len() ==> groups[m].spec_id() <= (#[trigger] groups[k]).spec_id()
}

/// Whether each group ends no later than the next one starts.
pub open spec fn time_ordered(groups: Seq<ColumnGroup>) -> bool {
    forall|k: int|
        0 <= k < groups.len() - 1 ==> (#[trigger] groups[k]).spec_time_range().max_ts
            <= groups[k + 1].spec_time_range().min_ts
}

/// Whether a chunk with these groups and this time range takes group `g`:
/// `g` starts no earlier than the chunk ends, and its id is new.
pub open spec fn push_accepted(groups: Seq<ColumnGroup>, time_range: TimeRange, g: ColumnGroup) -> bool {
    &&& time_range.max_ts <= g.spec_time_range().min_ts
    &&& forall|k: int| 0 <= k < groups.len() ==> (#[trigger] groups[k]).spec_id() != g.spec_id()
}

/// The span of the time ranges of a sequence of column groups.
pub open spec fn groups_span(groups: Seq<ColumnGroup>) -> TimeRange
    decreases groups.len(),
{
    if groups.len() == 0 {
        TimeRange::spec_none()
    } else {
        groups_span(groups.drop_last()).spec_merged(groups.last().spec_time_range())
    }
}

/// Whether a chunk holding the first `k` of `groups` takes the next one.
#[verifier::opaque]
pub open spec fn accepted_at(groups: Seq<ColumnGroup>, k: int) -> bool {
    push_accepted(groups.take(k), groups_span(groups.take(k)), groups[k])
}

/// Whether pushing `groups` in order into a new chunk succeeds each time.
pub open spec fn pushes_accepted(groups: Seq<ColumnGroup>) -> bool {
    forall|k: int| 0 <= k < groups.len() ==> #[trigger] accepted_at(groups, k)
}

/// The data of one series in one file.
#[derive(Debug)]
pub struct Chunk {
    time_range: TimeRange,
    table_name: String,
    series_id: u32,
    series_key: SeriesKey,
    next_column_group_id: u64,
    column_groups: Vec<ColumnGroup>,
}

impl Chunk {
    pub closed spec fn spec_groups(&self) -> Seq<ColumnGroup> {
        self.column_groups@
    }

    pub closed spec fn spec_time_range(&self) -> TimeRange {
        self.time_range
    }

    pub closed spec fn spec_next_id(&self) -> u64 {
        self.next_column_group_id
    }

    pub closed spec fn spec_table_name(&self) -> Seq<char> {
        self.table_name@
    }

    pub closed spec fn spec_series_key(&self) -> SeriesKey {
        self.series_key
    }

    pub closed spec fn spec_series_id(&self) -> u32 {
        self.series_id
    }

    /// Groups are in time order and within the chunk's time range, and their
    /// ids are distinct.
    pub closed spec fn wf(&self) -> bool {
        let g = self.column_groups@;
        &&& time_ordered(g)
        &&& forall|k: int|
            0 <= k < g.len() ==> (#[trigger] g[k]).spec_time_range().max_ts
                <= self.time_range.max_ts
        &&& forall|i: int, j: int|
            0 <= i < g.len() && 0 <= j < g.len() && i != j ==> (#[trigger] g[i]).spec_id()
                != (#[trigger] g[j]).spec_id()
    }

    pub fn new(table_name: String, series_id: u32, series_key: SeriesKey) -> (r: Self)
        ensures
            r.wf(),
            r.spec_groups().len() == 0,
            r.spec_time_range() == TimeRange::spec_none(),
            r.spec_next_id() == 0,
            r.spec_table_name() == table_name@,
            r.spec_series_id() == series_id,
    {
        Chunk {
            time_range: TimeRange::none(),
            table_name,
            series_id,
            series_key,
            next_column_group_id: 0,
            column_groups: Vec::new(),
        }
    }

    /// The chunk that pushing `column_groups` in order into a new chunk
    /// gives, with its id counter at `next_column_group_id`; the first
    /// refused push is the error.
    #[verifier::spinoff_prover]
    #[verifier::rlimit(60)]
    pub fn from_parts(
        table_name: String,
        series_id: u32,
        series_key: SeriesKey,
        next_column_group_id: u64,
        column_groups: Vec<ColumnGroup>,
    ) -> (r: Result<Self, Error>)
        ensures
            r is Ok <==> pushes_accepted(column_groups@),
            r matches Ok(c) ==> c.wf() && c.spec_groups() == column_groups@ && c.spec_time_range()
                == groups_span(column_groups@) && c.spec_next_id() == next_column_group_id
                && c.spec_table_name() == table_name@ && c.spec_series_id() == series_id,
            r matches Err(e) ==> (e is TsmColumnGroupError),
    {
        let ghost all = column_groups@;
        let total = column_groups.len();
        let mut chunk = Chunk::new(table_name, series_id, series_key);
        let mut rest = column_groups;
        let mut k: usize = 0;
        while rest.len() > 0
            invariant
                k + rest@.len() == all.len(),
                rest@ == all.skip(k as int),
                chunk.wf(),
                chunk.spec_groups() == all.take(k as int),
                chunk.spec_time_range() == groups_span(all.take(k as int)),
                chunk.spec_next_id() == 0,
                chunk.spec_table_name() == table_name@,
                chunk.spec_series_id() == series_id,
                total == all.len(),
                all == column_groups@,
                forall|q: int| 0 <= q < k ==> #[trigger] accepted_at(all, q),
            decreases rest@.len(),
        {
            let g = rest.remove(0);
            proof {
                assert(g == all[k as int]);
                assert(all.take(k + 1).drop_last() =~= all.take(k as int));
                assert(all.take(k + 1).last() == all[k as int]);
            }
            match chunk.push(g) {
                Ok(()) => {},
                Err(e) => {
                    proof {
                        assert(!accepted_at(all, k as int)) by {
                            reveal(accepted_at);
                        }
                        assert(k < all.len());
                        assert(!pushes_accepted(all));
                    }
                    return Err(e);
                },
            }
            proof {
                assert(accepted_at(all, k as int)) by {
                    reveal(accepted_at);
                }
                assert(chunk.spec_groups() =~= all.take(k + 1));
                assert(rest@ =~= all.skip(k + 1));
            }
            k += 1;
        }
        proof {
            assert(all.take(k as int) =~= all);
        }
        chunk.next_column_group_id = next_column_group_id;
        Ok(chunk)
    }

    pub fn min_ts(&self) -> (r: i64)
        ensures
            r == self.spec_time_range().min_ts,
    {
        self.time_range.min_ts
    }

    pub fn max_ts(&self) -> (r: i64)
        ensures
            r == self.spec_time_range().max_ts,
    {
        self.time_range.max_ts
    }

    /// The number of column groups.
    pub fn len(&self) -> (r: usize)
        ensures
            r == self.spec_groups().len(),
    {
        self.column_groups.len()
    }

    /// The column groups, in the order they were pushed.
    pub fn column_group(&self) -> (r: &[ColumnGroup])
        ensures
            r@ == self.spec_groups(),
    {
        self.column_groups.as_slice()
    }

    /// Hands out the next column group id and advances the counter.
    pub fn next_column_group_id(&mut self) -> (r: u64)
        requires
            old(self).spec_next_id() < u64::MAX,
        ensures
            r == old(self).spec_next_id(),
            final(self).spec_next_id() == r + 1,
            final(self).spec_groups() == old(self).spec_groups(),
            final(self).spec_time_range() == old(self).spec_time_range(),
            final(self).spec_table_name() == old(self).spec_table_name(),
            final(self).spec_series_id() == old(self).spec_series_id(),
            final(self).spec_series_key() == old(self).spec_series_key(),
            old(self).wf() ==> final(self).wf(),
    {
        let id = self.next_column_group_id;
        self.next_column_group_id = id + 1;
        id
    }

    pub fn current_next_column_group_id(&self) -> (r: u64)
        ensures
            r == self.spec_next_id(),
    {
        self.next_column_group_id
    }

    pub fn table_name(&self) -> (r: &str)
        ensures
            r@ == self.spec_table_name(),
    {
        self.table_name.as_str()
    }

    pub fn series_id(&self) -> (r: u32)
        ensures
            r == self.spec_series_id(),
    {
        self.series_id
    }

    pub fn series_key(&self) -> (r: &SeriesKey)
        ensures
            *r == self.spec_series_key(),
    {
        &self.series_key
    }

    pub fn time_range(&self) -> (r: &TimeRange)
        ensures
            *r == self.spec_time_range(),
    {
        &self.time_range
    }

    /// Appends a column group. It must start no earlier than the chunk ends,
    /// and its id must be new; otherwise the chunk is left as it was.
    pub fn push(&mut self, column_group: ColumnGroup) -> (r: Result<(), Error>)
        requires
            old(self).wf(),
        ensures
            final(self).wf(),
            r is Ok <==> push_accepted(old(self).spec_groups(), old(self).spec_time_range(), column_group),
            r is Ok ==> final(self).spec_groups() == old(self).spec_groups().push(column_group)
                && final(self).spec_time_range() == old(self).spec_time_range().spec_merged(
                column_group.spec_time_range(),
            ) && final(self).spec_next_id() == old(self).spec_next_id()
                && final(self).spec_table_name() == old(self).spec_table_name()
                && final(self).spec_series_id() == old(self).spec_series_id()
                && final(self).spec_series_key() == old(self).spec_series_key(),
            r is Err ==> *final(self) == *old(self),
            old(self).spec_time_range().max_ts > column_group.spec_time_range().min_ts ==> r
                == Err::<(), Error>(Error::TsmColumnGroupError {
                reason: ColumnGroupFault::TimeRangeOverlap {
                    current_max_ts: old(self).spec_time_range().max_ts,
                    new_min_ts: column_group.spec_time_range().min_ts,
                },
            }),
            old(self).spec_time_range().max_ts <= column_group.spec_time_range().min_ts && !push_accepted(old(self).spec_groups(), old(self).spec_time_range(), column_group) ==> r
                == Err::<(), Error>(Error::TsmColumnGroupError {
                reason: ColumnGroupFault::DuplicateId { id: column_group.spec_id() },
            }),
    {
        let new_min = column_group.time_range.min_ts;
        if self.time_range.max_ts > new_min {
            return Err(
                Error::TsmColumnGroupError {
                    reason: ColumnGroupFault::TimeRangeOverlap {
                        current_max_ts: self.time_range.max_ts,
                        new_min_ts: new_min,
                    },
                },
            );
        }
        let id = column_group.column_group_id;
        let mut k: usize = 0;
        while k < self.column_groups.len()
            invariant
                self.wf(),
                *self == *old(self),
                self.time_range.max_ts <= column_group.spec_time_range().min_ts,
                k <= self.column_groups@.len(),
                id == column_group.spec_id(),
                forall|j: int| 0 <= j < k ==> (#[trigger] self.column_groups@[j]).spec_id() != id,
            decreases self.column_groups@.len() - k,
        {
            if self.column_groups[k].column_group_id == id {
                return Err(
                    Error::TsmColumnGroupError { reason: ColumnGroupFault::DuplicateId { id } },
                );
            }
            k += 1;
        }
        let ghost before = self.column_groups@;
        let tr = column_group.time_range;
        self.time_range.merge(&tr);
        self.column_groups.push(column_group);
        proof {
            let g = self.column_groups@;
            assert(g == before.push(column_group));
            assert forall|k: int| 0 <= k < g.len() - 1 implies (#[trigger] g[k]).spec_time_range().max_ts
                <= g[k + 1].spec_time_range().min_ts by {
                if k + 1 < before.len() {
                    assert(g[k] == before[k] && g[k + 1] == before[k + 1]);
                } else {
                    assert(g[k] == before[k]);
                }
            }
            assert forall|k: int| 0 <= k < g.len() implies (#[trigger] g[k]).spec_time_range().max_ts
                <= self.time_range.max_ts by {
                if k < before.len() {
                    assert(g[k] == before[k]);
                }
            }
            assert forall|i: int, j: int|
                0 <= i < g.len() && 0 <= j < g.len() && i != j implies (#[trigger] g[i]).spec_id()
                != (#[trigger] g[j]).spec_id() by {
                if i < before.len() {
                    assert(g[i] == before[i]);
                }
                if j < before.len() {
                    assert(g[j] == before[j]);
                }
            }
        }
        Ok(())
    }

    /// The columns of the chunk: those of the pages of its column group with
    /// the smallest id.
    pub fn schema(&self) -> (r: Vec<TableColumn>)
        ensures
            self.spec_groups().len() == 0 ==> r@.len() == 0,
            self.spec_groups().len() > 0 ==> exists|m: int|
                0 <= m < self.spec_groups().len() && is_least_id(self.spec_groups(), m) && r@
                    == (#[trigger] self.spec_groups()[m]).spec_pages().map_values(
                    |p: PageWriteSpec| p.meta.column,
                ),
    {
        let mut fields: Vec<TableColumn> = Vec::new();
        if self.column_groups.len() == 0 {
            return fields;
        }
        let mut m: usize = 0;
        let mut q: usize = 1;
        while q < self.column_groups.len()
            invariant
                1 <= q <= self.column_groups@.len(),
                m < q,
                forall|k: int| 0 <= k < q ==> self.column_groups@[m as int].spec_id() <= (#[trigger] self.column_groups@[k]).spec_id(),
            decreases self.column_groups@.len() - q,
        {
            if self.column_groups[q].column_group_id < self.column_groups[m].column_group_id {
                m = q;
            }
            q += 1;
        }
        let pages = self.column_groups[m].pages();
        let mut i: usize = 0;
        while i < pages.len()
            invariant
                i <= pages@.len(),
                fields@ == pages@.take(i as int).map_values(|p: PageWriteSpec| p.meta.column),
            decreases pages@.len() - i,
        {
            fields.push(pages[i].meta.column.clone());
            proof {
                assert(fields@ =~= pages@.take(i + 1).map_values(|p: PageWriteSpec| p.meta.column));
            }
            i += 1;
        }
        proof {
            assert(pages@.take(i as int) =~= pages@);
        }
        fields
    }
}

/// The column groups of a chunk are in time order: each ends no later than
/// the next one starts.
pub proof fn lemma_chunk_time_ordered(c: Chunk)
    requires
        c.wf(),
    ensures
        time_ordered(c.spec_groups()),
{
}

/// A column group that a chunk has taken is refused a second time, so the
/// second push leaves the chunk as it was.
pub proof fn lemma_second_push_refused(c: Chunk, g: ColumnGroup)
    requires
        push_accepted(c.spec_groups(), c.spec_time_range(), g),
    ensures
        !push_accepted(
            c.spec_groups().push(g),
            c.spec_time_range().spec_merged(g.spec_time_range()),
            g,
        ),
{
    let groups = c.spec_groups().push(g);
    assert(groups[groups.len() - 1].spec_id() == g.spec_id());
}

/// The time statistics of a chunk.
#[derive(Clone, Copy, Debug, PartialEq, Eq, Structural)]
pub struct ChunkStatics {
    pub time_range: TimeRange,
}

/// The place of a chunk in a file.
#[derive(Clone, Copy, Debug, PartialEq, Eq, Structural)]
pub struct ChunkWriteSpec {
    pub series_id: u32,
    pub chunk_offset: u64,
    pub chunk_size: u64,
    pub statics: ChunkStatics,
}

impl ChunkWriteSpec {
    pub fn new(series_id: u32, chunk_offset: u64, chunk_size: u64, statics: ChunkStatics) -> (r: Self)
        ensures
            r == (ChunkWriteSpec { series_id, chunk_offset, chunk_size, statics }),
    {
        ChunkWriteSpec { series_id, chunk_offset, chunk_size, statics }
    }

    pub fn series_id(&self) -> (r: u32)
        ensures
            r == self.series_id,
    {
        self.series_id
    }

    pub fn chunk_offset(&self) -> (r: u64)
        ensures
            r == self.chunk_offset,
    {
        self.chunk_offset
    }

    pub fn chunk_size(&self) -> (r: u64)
        ensures
            r == self.chunk_size,
    {
        self.chunk_size
    }

    pub fn statics(&self) -> (r: &ChunkStatics)
        ensures
            *r == self.statics,
    {
        &self.statics
    }
}

/// The span of the time ranges of a sequence of chunks.
pub open spec fn chunks_span(chunks: Seq<ChunkWriteSpec>) -> TimeRange
    decreases chunks.len(),
{
    if chunks.len() == 0 {
        TimeRange::spec_none()
    } else {
        chunks_span(chunks.drop_last()).spec_merged(chunks.last().statics.time_range)
    }
}

/// The length of a serialized chunk write spec.
pub const CHUNK_SPEC_LEN: usize = 36;

/// The bytes of a chunk write spec: series id, offset, size and time range,
/// big-endian.
pub open spec fn chunk_spec_bytes(c: ChunkWriteSpec) -> Seq<u8> {
    be32(c.series_id) + be64(c.chunk_offset) + be64(c.chunk_size) + be64(
        c.statics.time_range.min_ts as u64,
    ) + be64(c.statics.time_range.max_ts as u64)
}

/// The chunk write spec that 36 bytes hold.
pub open spec fn parse_chunk_spec(b: Seq<u8>) -> ChunkWriteSpec {
    ChunkWriteSpec {
        series_id: be32_value(b.subrange(0, 4)),
        chunk_offset: be64_value(b.subrange(4, 12)),
        chunk_size: be64_value(b.subrange(12, 20)),
        statics: ChunkStatics {
            time_range: TimeRange {
                min_ts: be64_value(b.subrange(20, 28)) as i64,
                max_ts: be64_value(b.subrange(28, 36)) as i64,
            },
        },
    }
}

/// The bytes of a sequence of chunk write specs, one after the other.
pub open spec fn chunk_specs_bytes(cs: Seq<ChunkWriteSpec>) -> Seq<u8>
    decreases cs.len(),
{
    if cs.len() == 0 {
        Seq::empty()
    } else {
        chunk_specs_bytes(cs.drop_last()) + chunk_spec_bytes(cs.last())
    }
}

/// The bytes of a chunk group: the number of chunks in four big-endian bytes,
/// then the chunks.
pub open spec fn chunk_group_bytes(cs: Seq<ChunkWriteSpec>) -> Seq<u8> {
    be32(cs.len() as u32) + chunk_specs_bytes(cs)
}

/// The chunks that `b` holds as a chunk group, if it holds one and nothing more.
pub open spec fn parse_chunk_group(b: Seq<u8>) -> Option<Seq<ChunkWriteSpec>> {
    if b.len() >= 4 && b.len() == 4 + 36 * be32_value(b.subrange(0, 4)) {
        Some(
            Seq::new(
                be32_value(b.subrange(0, 4)) as nat,
                |k: int| parse_chunk_spec(b.subrange(4 + 36 * k, 4 + 36 * k + 36)),
            ),
        )
    } else {
        None
    }
}

proof fn lemma_chunk_spec_round_trip(c: ChunkWriteSpec)
    ensures
        chunk_spec_bytes(c).len() == 36,
        parse_chunk_spec(chunk_spec_bytes(c)) == c,
{
    let b = chunk_spec_bytes(c);
    let min = c.statics.time_range.min_ts;
    let max = c.statics.time_range.max_ts;
    lemma_be32_round_trip(c.series_id);
    lemma_be64_round_trip(c.chunk_offset);
    lemma_be64_round_trip(c.chunk_size);
    lemma_be64_round_trip(min as u64);
    lemma_be64_round_trip(max as u64);
    assert((min as u64) as i64 == min) by (bit_vector);
    assert((max as u64) as i64 == max) by (bit_vector);
    assert(b.subrange(0, 4) =~= be32(c.series_id));
    assert(b.subrange(4, 12) =~= be64(c.chunk_offset));
    assert(b.subrange(12, 20) =~= be64(c.chunk_size));
    assert(b.subrange(20, 28) =~= be64(min as u64));
    assert(b.subrange(28, 36) =~= be64(max as u64));
}

proof fn lemma_chunk_specs_layout(cs: Seq<ChunkWriteSpec>)
    ensures
        chunk_specs_bytes(cs).len() == 36 * cs.len(),
        forall|k: int|
            0 <= k < cs.len() ==> chunk_specs_bytes(cs).subrange(36 * k, 36 * k + 36)
                == chunk_spec_bytes(#[trigger] cs[k]),
    decreases cs.len(),
{
    if cs.len() > 0 {
        let init = cs.drop_last();
        lemma_chunk_specs_layout(init);
        lemma_chunk_spec_round_trip(cs.last());
        let b = chunk_specs_bytes(cs);
        assert forall|k: int| 0 <= k < cs.len() implies b.subrange(36 * k, 36 * k + 36)
            == chunk_spec_bytes(#[trigger] cs[k]) by {
            if k < init.len() {
                assert(cs[k] == init[k]);
                assert(b.subrange(36 * k, 36 * k + 36) =~= chunk_specs_bytes(init).subrange(
                    36 * k,
                    36 * k + 36,
                ));
            } else {
                assert(b.subrange(36 * k, 36 * k + 36) =~= chunk_spec_bytes(cs.last()));
            }
        }
    }
}

/// Deserializing a serialized chunk group gives back its chunks.
pub proof fn lemma_chunk_group_round_trip(cs: Seq<ChunkWriteSpec>)
    requires
        cs.len() <= u32::MAX,
    ensures
        parse_chunk_group(chunk_group_bytes(cs)) == Some(cs),
{
    let b = chunk_group_bytes(cs);
    lemma_be32_round_trip(cs.len() as u32);
    lemma_chunk_specs_layout(cs);
    assert(b.subrange(0, 4) =~= be32(cs.len() as u32));
    let parsed = parse_chunk_group(b)->Some_0;
    assert forall|k: int| 0 <= k < cs.len() implies #[trigger] parsed[k] == cs[k] by {
        assert(b.subrange(4 + 36 * k, 4 + 36 * k + 36) =~= chunk_specs_bytes(cs).subrange(
            36 * k,
            36 * k + 36,
        ));
        lemma_chunk_spec_round_trip(cs[k]);
    }
    assert(parsed =~= cs);
}

fn put_chunk_spec(out: &mut Vec<u8>, c: &ChunkWriteSpec)
    ensures
        final(out)@ == old(out)@ + chunk_spec_bytes(*c),
{
    put_u32(out, c.series_id);
    put_u64(out, c.chunk_offset);
    put_u64(out, c.chunk_size);
    put_u64(out, c.statics.time_range.min_ts as u64);
    put_u64(out, c.statics.time_range.max_ts as u64);
    assert(final(out)@ =~= old(out)@ + chunk_spec_bytes(*c));
}

fn read_chunk_spec(b: &[u8], pos: usize) -> (r: ChunkWriteSpec)
    requires
        pos + 36 <= b@.len(),
    ensures
        r == parse_chunk_spec(b@.subrange(pos as int, pos + 36)),
{
    let ghost t = b@.subrange(pos as int, pos + 36);
    let len = b.len();
    assert(pos + 36 <= len);
    let series_id = get_u32(b, pos);
    let chunk_offset = get_u64(b, pos + 4);
    let chunk_size = get_u64(b, pos + 12);
    let min_ts = get_u64(b, pos + 20) as i64;
    let max_ts = get_u64(b, pos + 28) as i64;
    proof {
        assert(b@.subrange(pos as int, pos + 4) =~= t.subrange(0, 4));
        assert(b@.subrange(pos + 4, pos + 12) =~= t.subrange(4, 12));
        assert(b@.subrange(pos + 12, pos + 20) =~= t.subrange(12, 20));
        assert(b@.subrange(pos + 20, pos + 28) =~= t.subrange(20, 28));
        assert(b@.subrange(pos + 28, pos + 36) =~= t.subrange(28, 36));
    }
    ChunkWriteSpec {
        series_id,
        chunk_offset,
        chunk_size,
        statics: ChunkStatics { time_range: TimeRange { min_ts, max_ts } },
    }
}

/// The chunks of one table in a file.
#[derive(Debug)]
pub struct ChunkGroup {
    pub chunks: Vec<ChunkWriteSpec>,
}

impl ChunkGroup {
    pub fn new() -> (r: Self)
        ensures
            r.chunks@.len() == 0,
    {
        ChunkGroup { chunks: Vec::new() }
    }

    pub fn push(&mut self, chunk: ChunkWriteSpec)
        ensures
            final(self).chunks@ == old(self).chunks@.push(chunk),
    {
        self.chunks.push(chunk);
    }

    pub fn len(&self) -> (r: usize)
        ensures
            r == self.chunks@.len(),
    {
        self.chunks.len()
    }

    /// The span of the time ranges of the chunks.
    pub fn time_range(&self) -> (r: TimeRange)
        ensures
            r == chunks_span(self.chunks@),
    {
        let mut time_range = TimeRange::none();
        let mut i: usize = 0;
        while i < self.chunks.len()
            invariant
                i <= self.chunks@.len(),
                time_range == chunks_span(self.chunks@.take(i as int)),
            decreases self.chunks@.len() - i,
        {
            proof {
                assert(self.chunks@.take(i + 1).drop_last() =~= self.chunks@.take(i as int));
            }
            time_range.merge(&self.chunks[i].statics.time_range);
            i += 1;
        }
        proof {
            assert(self.chunks@.take(i as int) =~= self.chunks@);
        }
        time_range
    }

    pub fn chunks(&self) -> (r: &[ChunkWriteSpec])
        ensures
            r@ == self.chunks@,
    {
        self.chunks.as_slice()
    }

    pub fn serialize(&self) -> (r: Result<Vec<u8>, Error>)
        ensures
            r is Ok <==> self.chunks@.len() <= u32::MAX,
            r matches Ok(b) ==> b@ == chunk_group_bytes(self.chunks@),
            r matches Err(e) ==> e is Serialize,
    {
        if self.chunks.len() > u32::MAX as usize {
            return Err(Error::Serialize);
        }
        let mut out: Vec<u8> = Vec::new();
        put_u32(&mut out, self.chunks.len() as u32);
        let mut i: usize = 0;
        while i < self.chunks.len()
            invariant
                i <= self.chunks@.len(),
                self.chunks@.len() <= u32::MAX,
                out@ == be32(self.chunks@.len() as u32) + chunk_specs_bytes(self.chunks@.take(i as int)),
            decreases self.chunks@.len() - i,
        {
            put_chunk_spec(&mut out, &self.chunks[i]);
            proof {
                assert(self.chunks@.take(i + 1).drop_last() =~= self.chunks@.take(i as int));
            }
            i += 1;
        }
        proof {
            assert(self.chunks@.take(i as int) =~= self.chunks@);
        }
        Ok(out)
    }

    pub fn deserialize(bytes: &[u8]) -> (r: Result<Self, Error>)
        ensures
            match parse_chunk_group(bytes@) {
                None => r matches Err(e) && e is Deserialize,
                Some(cs) => r matches Ok(g) && g.chunks@ == cs,
            },
    {
        if bytes.len() < 4 {
            return Err(Error::Deserialize);
        }
        let n = get_u32(bytes, 0) as usize;
        if (bytes.len() - 4) / CHUNK_SPEC_LEN != n || (bytes.len() - 4) % CHUNK_SPEC_LEN != 0 {
            return Err(Error::Deserialize);
        }
        let ghost expected = parse_chunk_group(bytes@)->Some_0;
        let mut chunks: Vec<ChunkWriteSpec> = Vec::new();
        let mut k: usize = 0;
        while k < n
            invariant
                k <= n,
                bytes@.len() == 4 + 36 * n,
                n == be32_value(bytes@.subrange(0, 4)),
                expected == parse_chunk_group(bytes@)->Some_0,
                expected.len() == n,
                chunks@ == expected.take(k as int),
            decreases n - k,
        {
            let len = bytes.len();
            assert(4 + 36 * k + 36 <= len) by (nonlinear_arith)
                requires
                    k < n,
                    len == 4 + 36 * n,
            ;
            let c = read_chunk_spec(bytes, 4 + CHUNK_SPEC_LEN * k);
            chunks.push(c);
            proof {
                assert(chunks@ =~= expected.take(k + 1));
            }
            k += 1;
        }
        proof {
            assert(expected.take(k as int) =~= expected);
        }
        Ok(ChunkGroup { chunks })
    }
}

impl Default for ChunkGroup {
    fn default() -> (r: Self)
        ensures
            r.chunks@.len() == 0,
    {
        ChunkGroup::new()
    }
}

/// The place of a table's chunk group in a file.
#[derive(Debug)]
pub struct ChunkGroupWriteSpec {
    pub table_schema: TableSchema,
    pub chunk_group_offset: u64,
    pub chunk_group_size: u64,
    pub time_range: TimeRange,
    pub count: u64,
}

impl ChunkGroupWriteSpec {
    pub fn new(
        table_schema: TableSchema,
        chunk_group_offset: u64,
        chunk_group_size: u64,
        time_range: TimeRange,
        count: u64,
    ) -> (r: Self)
        ensures
            r == (ChunkGroupWriteSpec {
                table_schema,
                chunk_group_offset,
                chunk_group_size,
                time_range,
                count,
            }),
    {
        ChunkGroupWriteSpec { table_schema, chunk_group_offset, chunk_group_size, time_range, count }
    }

    pub fn name(&self) -> (r: &str)
        ensures
            r@ == self.table_schema.name@,
    {
        self.table_schema.name.as_str()
    }

    pub fn chunk_group_offset(&self) -> (r: u64)
        ensures
            r == self.chunk_group_offset,
    {
        self.chunk_group_offset
    }

    pub fn chunk_group_size(&self) -> (r: u64)
        ensures
            r == self.chunk_group_size,
    {
        self.chunk_group_size
    }

    pub fn time_range(&self) -> (r: &TimeRange)
        ensures
            *r == self.time_range,
    {
        &self.time_range
    }

    pub fn count(&self) -> (r: u64)
        ensures
            r == self.count,
    {
        self.count
    }
}

/// The span of the time ranges of a sequence of tables.
pub open spec fn tables_span(tables: Seq<ChunkGroupWriteSpec>) -> TimeRange
    decreases tables.len(),
{
    if tables.len() == 0 {
        TimeRange::spec_none()
    } else {
        tables_span(tables.drop_last()).spec_merged(tables.last().time_range)
    }
}

/// Whether no two tables share a name.
pub open spec fn names_unique(tables: Seq<ChunkGroupWriteSpec>) -> bool {
    forall|i: int, j: int|
        0 <= i < tables.len() && 0 <= j < tables.len() && i != j ==> (#[trigger] tables[i]).table_schema.name@
            != (#[trigger] tables[j]).table_schema.name@
}

/// The chunk groups of a file, one per table.
#[derive(Debug)]
pub struct ChunkGroupMeta {
    tables: Vec<ChunkGroupWriteSpec>,
}

impl Default for ChunkGroupMeta {
    fn default() -> (r: Self)
        ensures
            r.wf(),
            r.spec_tables().len() == 0,
    {
        ChunkGroupMeta::new()
    }
}

impl ChunkGroupMeta {
    pub closed spec fn spec_tables(&self) -> Seq<ChunkGroupWriteSpec> {
        self.tables@
    }

    pub closed spec fn wf(&self) -> bool {
        names_unique(self.tables@)
    }

    pub fn new() -> (r: Self)
        ensures
            r.wf(),
            r.spec_tables().len() == 0,
    {
        ChunkGroupMeta { tables: Vec::new() }
    }

    /// Records a table's chunk group, in place of any earlier one of the same name.
    pub fn push(&mut self, table: ChunkGroupWriteSpec)
        requires
            old(self).wf(),
        ensures
            final(self).wf(),
            (exists|i: int|
                0 <= i < old(self).spec_tables().len()
                    && (#[trigger] old(self).spec_tables()[i]).table_schema.name@ == table.table_schema.name@)
                ==> exists|i: int|
                0 <= i < old(self).spec_tables().len()
                    && (#[trigger] old(self).spec_tables()[i]).table_schema.name@ == table.table_schema.name@
                    && final(self).spec_tables() == old(self).spec_tables().update(i, table),
            (forall|i: int|
                0 <= i < old(self).spec_tables().len() ==> (#[trigger] old(self).spec_tables()[i]).table_schema.name@
                    != table.table_schema.name@) ==> final(self).spec_tables() == old(self).spec_tables().push(table),
    {
        let mut i: usize = 0;
        while i < self.tables.len()
            invariant
                i <= self.tables@.len(),
                self.tables@ == old(self).tables@,
                names_unique(self.tables@),
                forall|j: int| 0 <= j < i ==> (#[trigger] self.tables@[j]).table_schema.name@
                    != table.table_schema.name@,
            decreases self.tables@.len() - i,
        {
            if self.tables[i].table_schema.name == table.table_schema.name {
                let ghost before = self.tables@;
                self.tables.set(i, table);
                proof {
                    let t = self.tables@;
                    assert(t[i as int] == table);
                    assert(before[i as int].table_schema.name@ == table.table_schema.name@);
                    assert forall|a: int, b: int|
                        0 <= a < t.len() && 0 <= b < t.len() && a != b implies (#[trigger] t[a]).table_schema.name@
                        != (#[trigger] t[b]).table_schema.name@ by {
                        if a != i {
                            assert(t[a] == before[a]);
                        }
                        if b != i {
                            assert(t[b] == before[b]);
                        }
                    }
                }
                return;
            }
            i += 1;
        }
        let ghost before = self.tables@;
        self.tables.push(table);
        proof {
            let t = self.tables@;
            assert forall|a: int, b: int|
                0 <= a < t.len() && 0 <= b < t.len() && a != b implies (#[trigger] t[a]).table_schema.name@
                != (#[trigger] t[b]).table_schema.name@ by {
                if a < before.len() {
                    assert(t[a] == before[a]);
                }
                if b < before.len() {
                    assert(t[b] == before[b]);
                }
            }
        }
    }

    /// The number of tables.
    pub fn len(&self) -> (r: usize)
        ensures
            r == self.spec_tables().len(),
    {
        self.tables.len()
    }

    /// The span of the time ranges of the tables.
    pub fn time_range(&self) -> (r: TimeRange)
        ensures
            r == tables_span(self.spec_tables()),
    {
        let mut time_range = TimeRange::none();
        let mut i: usize = 0;
        while i < self.tables.len()
            invariant
                i <= self.tables@.len(),
                time_range == tables_span(self.tables@.take(i as int)),
            decreases self.tables@.len() - i,
        {
            proof {
                assert(self.tables@.take(i + 1).drop_last() =~= self.tables@.take(i as int));
            }
            time_range.merge(&self.tables[i].time_range);
            i += 1;
        }
        proof {
            assert(self.tables@.take(i as int) =~= self.tables@);
        }
        time_range
    }

    pub fn tables(&self) -> (r: &[ChunkGroupWriteSpec])
        ensures
            r@ == self.spec_tables(),
    {
        self.tables.as_slice()
    }

    /// The schema of the table named `table_name`, if it is recorded.
    pub fn table_schema(&self, table_name: &str) -> (r: Option<&TableSchema>)
        ensures
            r is Some <==> exists|i: int|
                0 <= i < self.spec_tables().len() && (#[trigger] self.spec_tables()[i]).table_schema.name@ == table_name@,
            r matches Some(s) ==> exists|i: int|
                0 <= i < self.spec_tables().len() && (#[trigger] self.spec_tables()[i]).table_schema == *s
                    && s.name@ == table_name@,
    {
        let key = table_name.to_owned();
        let mut i: usize = 0;
        while i < self.tables.len()
            invariant
                i <= self.tables@.len(),
                key@ == table_name@,
                forall|j: int| 0 <= j < i ==> (#[trigger] self.tables@[j]).table_schema.name@ != table_name@,
            decreases self.tables@.len() - i,
        {
            if self.tables[i].table_schema.name == key {
                assert(self.spec_tables()[i as int].table_schema.name@ == table_name@);
                return Some(&self.tables[i].table_schema);
            }
            i += 1;
        }
        None
    }
}

} // verus!
