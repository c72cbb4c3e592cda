//! Errors of the storage format.
use vstd::prelude::*;

use crate::page::Page;
use crate::schema::ValueType;

verus! {

/// Why a page could not be built or read.
#[derive(Clone, Copy, Debug, PartialEq, Eq, Structural)]
pub enum PageFault {
    /// The header or the null bitmap runs past the end of the page.
    HeaderTruncated,
    /// Tag columns are not stored in pages.
    TagColumn,
    /// A value is not of the column's type.
    ValueTypeMismatch,
    /// The payload holds fewer values than the bitmap has set bits.
    DataBufferShort,
}

impl PageFault {
    /// The text of the fault.
    pub fn message(&self) -> (r: String)
        ensures
            *self == PageFault::HeaderTruncated ==> r@ == "page header truncated"@,
            *self == PageFault::TagColumn ==> r@ == "tag column not support now"@,
            *self == PageFault::ValueTypeMismatch ==> r@ == "value does not match column type"@,
            *self == PageFault::DataBufferShort ==> r@ == "data buffer not enough"@,
    {
        match self {
            PageFault::HeaderTruncated => "page header truncated".to_owned(),
            PageFault::TagColumn => "tag column not support now".to_owned(),
            PageFault::ValueTypeMismatch => "value does not match column type".to_owned(),
            PageFault::DataBufferShort => "data buffer not enough".to_owned(),
        }
    }
}

/// Why a column group could not be added or read.
#[derive(Clone, Copy, Debug, PartialEq, Eq, Structural)]
pub enum ColumnGroupFault {
    /// The new group starts before the chunk's time range ends.
    TimeRangeOverlap { current_max_ts: i64, new_min_ts: i64 },
    /// A page does not start where the group ends, or holds another row count.
    PageMisplaced { expected_offset: u128, offset: u64 },
    /// A group with this id is already in the chunk.
    DuplicateId { id: u64 },
    /// The group has no page of the time column.
    NoTimePage { id: u64 },
}

/// Why a precondition of an operation failed.
#[derive(Clone, Copy, Debug, PartialEq, Eq, Structural)]
pub enum CommonFault {
    /// A merge was asked for over no inputs.
    NoInputs,
}

#[derive(Debug)]
pub enum Error {
    /// The stored checksum of a page does not match its payload; the page is
    /// handed back for diagnostics.
    PageHashCheckFailed { crc: u32, crc_calculated: u32, page: Page },
    TsmPageError { reason: PageFault },
    UnsupportedDataType { dt: ValueType },
    /// A payload is truncated, malformed or carries an unknown encoding tag.
    Decode,
    /// A record is too large for its serialized form.
    Serialize,
    /// Bytes do not hold a serialized record.
    Deserialize,
    TsmColumnGroupError { reason: ColumnGroupFault },
    /// An input has no column of this name.
    SchemaError { column_name: String },
    CommonError { reason: CommonFault },
}

} // verus!
