//! Column descriptions and the values a column holds.
use vstd::prelude::*;

verus! {

/// The unit of a time column.
#[derive(Clone, Copy, Debug, PartialEq, Eq, Structural)]
pub enum TimeUnit {
    Second,
    Millisecond,
    Microsecond,
    Nanosecond,
}

/// The physical type of a field column.
#[derive(Clone, Copy, Debug, PartialEq, Eq, Structural)]
pub enum ValueType {
    Unknown,
    Float,
    Integer,
    Unsigned,
    Boolean,
    String,
}

/// What a column is: a tag, the time column, or a field of some value type.
#[derive(Clone, Copy, Debug, PartialEq, Eq, Structural)]
pub enum ColumnType {
    Tag,
    Time(TimeUnit),
    Field(ValueType),
}

impl ColumnType {
    /// The value type a page of this column is encoded with; `None` for tags.
    pub open spec fn spec_physical(self) -> Option<ValueType> {
        match self {
            ColumnType::Tag => None,
            ColumnType::Time(_) => Some(ValueType::Integer),
            ColumnType::Field(vt) => Some(vt),
        }
    }

    pub fn physical_type(&self) -> (r: Option<ValueType>)
        ensures
            r == self.spec_physical(),
    {
        match self {
            ColumnType::Tag => None,
            ColumnType::Time(_) => Some(ValueType::Integer),
            ColumnType::Field(vt) => Some(*vt),
        }
    }

    pub fn is_time(&self) -> (r: bool)
        ensures
            r == (self is Time),
    {
        match self {
            ColumnType::Time(_) => true,
            _ => false,
        }
    }
}

/// A column of a table.
#[derive(Debug)]
pub struct TableColumn {
    pub id: u32,
    pub name: String,
    pub column_type: ColumnType,
}

impl Clone for TableColumn {
    fn clone(&self) -> (r: Self)
        ensures
            r == *self,
    {
        TableColumn { id: self.id, name: self.name.clone(), column_type: self.column_type }
    }
}

impl TableColumn {
    pub fn new(id: u32, name: String, column_type: ColumnType) -> (r: Self)
        ensures
            r.id == id,
            r.name == name,
            r.column_type == column_type,
    {
        TableColumn { id, name, column_type }
    }
}

/// A tag of a series: a key and its value.
#[derive(Debug)]
pub struct Tag {
    pub key: Vec<u8>,
    pub value: Vec<u8>,
}

/// The key of a series: its table and its tags, in order.
#[derive(Debug)]
pub struct SeriesKey {
    pub table: String,
    pub tags: Vec<Tag>,
}

/// The name and columns of a table.
#[derive(Debug)]
pub struct TableSchema {
    pub name: String,
    pub columns: Vec<TableColumn>,
}

/// A present value of a column. A float is held as its IEEE-754 bits.
#[derive(Debug)]
pub enum FieldVal {
    Integer(i64),
    Unsigned(u64),
    Float(u64),
    Boolean(bool),
    Bytes(Vec<u8>),
}

/// The mathematical value of a `FieldVal`.
pub enum FieldValue {
    Integer(i64),
    Unsigned(u64),
    Float(u64),
    Boolean(bool),
    Bytes(Seq<u8>),
}

impl View for FieldVal {
    type V = FieldValue;

    open spec fn view(&self) -> FieldValue {
        match self {
            FieldVal::Integer(x) => FieldValue::Integer(*x),
            FieldVal::Unsigned(x) => FieldValue::Unsigned(*x),
            FieldVal::Float(x) => FieldValue::Float(*x),
            FieldVal::Boolean(b) => FieldValue::Boolean(*b),
            FieldVal::Bytes(v) => FieldValue::Bytes(v@),
        }
    }
}

impl Clone for FieldVal {
    fn clone(&self) -> (r: Self)
        ensures
            r@ == self@,
    {
        match self {
            FieldVal::Integer(x) => FieldVal::Integer(*x),
            FieldVal::Unsigned(x) => FieldVal::Unsigned(*x),
            FieldVal::Float(x) => FieldVal::Float(*x),
            FieldVal::Boolean(b) => FieldVal::Boolean(*b),
            FieldVal::Bytes(v) => FieldVal::Bytes(v.clone()),
        }
    }
}

/// Whether `v` is a value of type `vt`.
pub open spec fn value_fits(vt: ValueType, v: FieldValue) -> bool {
    match vt {
        ValueType::Integer => v is Integer,
        ValueType::Unsigned => v is Unsigned,
        ValueType::Float => v is Float,
        ValueType::Boolean => v is Boolean,
        ValueType::String => v matches FieldValue::Bytes(s) && s.len() <= u32::MAX,
        ValueType::Unknown => false,
    }
}

/// The values of a column: one entry per row, `None` for a null.
pub open spec fn column_view(vals: Seq<Option<FieldVal>>) -> Seq<Option<FieldValue>> {
    vals.map_values(|o: Option<FieldVal>| match o {
        Some(v) => Some(v@),
        None => None,
    })
}

/// A decoded column.
#[derive(Debug)]
pub struct Column {
    pub column_type: ColumnType,
    pub values: Vec<Option<FieldVal>>,
}

impl Column {
    pub open spec fn view_values(&self) -> Seq<Option<FieldValue>> {
        column_view(self.values@)
    }

    pub fn len(&self) -> (r: usize)
        ensures
            r == self.values@.len(),
    {
        self.values.len()
    }
}

} // verus!
