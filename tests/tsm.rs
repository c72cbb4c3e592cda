use tskv::bitset::BitSet;
use tskv::bloom::BloomFilter;
use tskv::codec::{decode, encode, ENCODING_NULL, ENCODING_PLAIN, ENCODING_RUNS};
use tskv::chunk::{
    Chunk, ChunkGroup, ChunkGroupMeta, ChunkGroupWriteSpec, ChunkStatics, ChunkWriteSpec,
    ColumnGroup,
};
use tskv::error::{ColumnGroupFault, Error, PageFault};
use tskv::footer::{footer_range, footer_trailer, Footer, SeriesMeta, TableMeta, BLOOM_FILTER_BITS};
use tskv::page::{Page, PageMeta, PageWriteSpec};
use tskv::schema::{
    ColumnType, FieldVal, SeriesKey, TableColumn, TableSchema, TimeUnit, ValueType,
};
use tskv::statistics::{PageStatistics, ValueStatistics};
use tskv::time_range::TimeRange;

fn field_column(id: u32, name: &str, vt: ValueType) -> TableColumn {
    TableColumn::new(id, name.to_string(), ColumnType::Field(vt))
}

fn create_test_page() -> Page {
    let field_column = field_column(1, "field1", ValueType::Integer);
    let pagemeta = PageMeta {
        num_values: 1,
        column: field_column,
        statistics: PageStatistics::I64(ValueStatistics {
            min: Some(1),
            max: Some(3),
            distinct_count: None,
            null_count: 1,
        }),
    };
    let buf: &[u8] = b"hello world";
    let data_len = 1_u64;
    let valid = BitSet::new();
    let len_bitset = valid.byte_len() as u32;
    let data_crc = crc32fast::hash(buf).to_be_bytes();
    let mut data = vec![];
    data.extend_from_slice(&len_bitset.to_be_bytes());
    data.extend_from_slice(&data_len.to_be_bytes());
    data.extend_from_slice(&data_crc);
    data.extend_from_slice(valid.bytes());
    data.extend_from_slice(buf);
    Page::new(data, pagemeta)
}

fn int_values(vals: &[Option<i64>]) -> Vec<Option<FieldVal>> {
    vals.iter().map(|v| v.map(FieldVal::Integer)).collect()
}

fn ints_of(column: &[Option<FieldVal>]) -> Vec<Option<i64>> {
    column
        .iter()
        .map(|v| match v {
            Some(FieldVal::Integer(x)) => Some(*x),
            None => None,
            _ => panic!("not an integer"),
        })
        .collect()
}

fn page_spec(offset: u64, size: usize, rows: u32, column_type: ColumnType) -> PageWriteSpec {
    let column = TableColumn::new(1, "c".to_string(), column_type);
    let meta = PageMeta {
        num_values: rows,
        column,
        statistics: PageStatistics::I64(ValueStatistics {
            min: None,
            max: None,
            distinct_count: None,
            null_count: 0,
        }),
    };
    PageWriteSpec::new(offset, size, meta)
}

fn group(id: u64, min_ts: i64, max_ts: i64) -> ColumnGroup {
    let mut g = ColumnGroup::new(id);
    g.time_range_merge(&TimeRange::new(min_ts, max_ts));
    g
}

fn series_key() -> SeriesKey {
    SeriesKey { table: "cpu".to_string(), tags: vec![] }
}

#[test]
fn test1() {
    let table_meta = TableMeta::new(100, 100);
    let expect_footer = Footer::new(
        1,
        TimeRange { min_ts: 0, max_ts: 100 },
        table_meta,
        SeriesMeta::new(BloomFilter::new(BLOOM_FILTER_BITS).bytes().to_vec(), 100, 100),
    );
    let bytess = expect_footer.serialize().unwrap();
    println!("bytes: {:?}", bytess.len());
    let footer = Footer::deserialize(&bytess).unwrap();
    assert_eq!(footer, expect_footer);
}

#[test]
fn test_page_crc_validation() {
    let page = create_test_page();
    let result = page.crc_validation();
    assert!(result.is_ok());
}

#[test]
fn page_round_trip_integers_with_nulls() {
    let vals = int_values(&[Some(5), None, Some(-7), Some(i64::MIN), None, Some(i64::MAX)]);
    let page = Page::build(field_column(1, "f", ValueType::Integer), &vals).unwrap();
    assert_eq!(page.meta().num_values, 6);
    let column = page.to_column().unwrap();
    assert_eq!(
        ints_of(&column.values),
        vec![Some(5), None, Some(-7), Some(i64::MIN), None, Some(i64::MAX)]
    );
}

#[test]
fn page_round_trip_all_null_and_all_present() {
    let all_null = int_values(&[None, None, None]);
    let page = Page::build(field_column(1, "f", ValueType::Integer), &all_null).unwrap();
    assert_eq!(ints_of(&page.to_column().unwrap().values), vec![None, None, None]);
    assert_eq!(page.meta().statistics.null_count(), 3);

    let all_present = int_values(&[Some(1), Some(2), Some(3), Some(4), Some(5), Some(6), Some(7), Some(8), Some(9)]);
    let page = Page::build(field_column(1, "f", ValueType::Integer), &all_present).unwrap();
    assert_eq!(
        ints_of(&page.to_column().unwrap().values),
        vec![Some(1), Some(2), Some(3), Some(4), Some(5), Some(6), Some(7), Some(8), Some(9)]
    );
    assert_eq!(page.meta().statistics.null_count(), 0);

    let empty: Vec<Option<FieldVal>> = vec![];
    let page = Page::build(field_column(1, "f", ValueType::Integer), &empty).unwrap();
    assert!(page.to_column().unwrap().values.is_empty());
}

#[test]
fn page_round_trip_other_types() {
    let strings = vec![
        Some(FieldVal::Bytes(b"abc".to_vec())),
        None,
        Some(FieldVal::Bytes(vec![])),
        Some(FieldVal::Bytes(b"zz".to_vec())),
    ];
    let page = Page::build(field_column(2, "s", ValueType::String), &strings).unwrap();
    let column = page.to_column().unwrap();
    let got: Vec<Option<Vec<u8>>> = column
        .values
        .iter()
        .map(|v| match v {
            Some(FieldVal::Bytes(b)) => Some(b.clone()),
            None => None,
            _ => panic!("not bytes"),
        })
        .collect();
    assert_eq!(got, vec![Some(b"abc".to_vec()), None, Some(vec![]), Some(b"zz".to_vec())]);
    match &page.meta().statistics {
        PageStatistics::Bytes(s) => {
            assert_eq!(s.min, Some(vec![]));
            assert_eq!(s.max, Some(b"zz".to_vec()));
            assert_eq!(s.null_count, 1);
        }
        other => panic!("unexpected statistics {other:?}"),
    }

    let bools = vec![Some(FieldVal::Boolean(true)), None, Some(FieldVal::Boolean(false))];
    let page = Page::build(field_column(3, "b", ValueType::Boolean), &bools).unwrap();
    let column = page.to_column().unwrap();
    assert!(matches!(column.values[0], Some(FieldVal::Boolean(true))));
    assert!(column.values[1].is_none());
    assert!(matches!(column.values[2], Some(FieldVal::Boolean(false))));

    let floats = vec![
        Some(FieldVal::Float(1.5f64.to_bits())),
        Some(FieldVal::Float((-2.25f64).to_bits())),
        None,
    ];
    let page = Page::build(field_column(4, "x", ValueType::Float), &floats).unwrap();
    let column = page.to_column().unwrap();
    match (&column.values[0], &column.values[1]) {
        (Some(FieldVal::Float(a)), Some(FieldVal::Float(b))) => {
            assert_eq!(f64::from_bits(*a), 1.5);
            assert_eq!(f64::from_bits(*b), -2.25);
        }
        _ => panic!("not floats"),
    }
    match &page.meta().statistics {
        PageStatistics::F64(s) => {
            assert_eq!(s.min.map(f64::from_bits), Some(-2.25));
            assert_eq!(s.max.map(f64::from_bits), Some(1.5));
        }
        other => panic!("unexpected statistics {other:?}"),
    }

    let unsigned = vec![Some(FieldVal::Unsigned(u64::MAX)), Some(FieldVal::Unsigned(3))];
    let page = Page::build(field_column(5, "u", ValueType::Unsigned), &unsigned).unwrap();
    let column = page.to_column().unwrap();
    assert!(matches!(column.values[0], Some(FieldVal::Unsigned(u64::MAX))));
    assert!(matches!(column.values[1], Some(FieldVal::Unsigned(3))));
}

#[test]
fn page_time_column_round_trip() {
    let column = TableColumn::new(0, "time".to_string(), ColumnType::Time(TimeUnit::Nanosecond));
    let vals = int_values(&[Some(10), Some(20)]);
    let page = Page::build(column, &vals).unwrap();
    assert_eq!(ints_of(&page.to_column().unwrap().values), vec![Some(10), Some(20)]);
}

#[test]
fn page_statistics_of_integers() {
    let vals = int_values(&[Some(4), None, Some(-9), Some(12), None]);
    let page = Page::build(field_column(1, "f", ValueType::Integer), &vals).unwrap();
    match &page.meta().statistics {
        PageStatistics::I64(s) => {
            assert_eq!(s.min, Some(-9));
            assert_eq!(s.max, Some(12));
            assert_eq!(s.null_count, 2);
        }
        other => panic!("unexpected statistics {other:?}"),
    }
}

#[test]
fn page_build_rejects_bad_columns() {
    let vals = int_values(&[Some(1)]);
    let tag = TableColumn::new(1, "host".to_string(), ColumnType::Tag);
    assert!(matches!(
        Page::build(tag, &vals),
        Err(Error::TsmPageError { reason: PageFault::TagColumn })
    ));
    assert!(matches!(
        Page::build(field_column(1, "f", ValueType::Unknown), &vals),
        Err(Error::UnsupportedDataType { .. })
    ));
    assert!(matches!(
        Page::build(field_column(1, "f", ValueType::Unsigned), &vals),
        Err(Error::TsmPageError { reason: PageFault::ValueTypeMismatch })
    ));
}

#[test]
fn built_page_stores_crc_of_payload() {
    let vals = int_values(&[Some(1), None, Some(2)]);
    let page = Page::build(field_column(1, "f", ValueType::Integer), &vals).unwrap();
    let payload = page.data_buffer().unwrap().to_vec();
    assert!(!payload.is_empty());
    assert_eq!(&page.bytes()[12..16], &crc32fast::hash(&payload).to_be_bytes());
    assert_eq!(page.null_bitset_slice().unwrap(), &[0b101u8]);
    let mask = page.null_bitset().unwrap();
    assert_eq!(mask.len(), 3);
    assert!(mask.get(0) && !mask.get(1) && mask.get(2));
    assert_eq!(mask.count_ones(), 2);
    assert!(page.crc_validation().is_ok());
}

#[test]
fn page_crc_corruption_detected() {
    let vals = int_values(&[Some(1), Some(2), Some(3)]);
    let page = Page::build(field_column(1, "f", ValueType::Integer), &vals).unwrap();
    let mut bytes = page.bytes().to_vec();
    let last = bytes.len() - 1;
    bytes[last] ^= 0xff;
    let meta = PageMeta {
        num_values: 3,
        column: field_column(1, "f", ValueType::Integer),
        statistics: PageStatistics::I64(ValueStatistics {
            min: None,
            max: None,
            distinct_count: None,
            null_count: 0,
        }),
    };
    let corrupted = Page::new(bytes, meta);
    match corrupted.crc_validation() {
        Err(Error::PageHashCheckFailed { crc, crc_calculated, page }) => {
            assert_ne!(crc, crc_calculated);
            assert_eq!(page.meta().num_values, 3);
        }
        other => panic!("unexpected {other:?}"),
    }
}

#[test]
fn page_crc_validation_truncated_header() {
    let meta = PageMeta {
        num_values: 0,
        column: field_column(1, "f", ValueType::Integer),
        statistics: PageStatistics::I64(ValueStatistics {
            min: None,
            max: None,
            distinct_count: None,
            null_count: 0,
        }),
    };
    let page = Page::new(vec![0, 0, 0], meta);
    assert!(matches!(
        page.crc_validation(),
        Err(Error::TsmPageError { reason: PageFault::HeaderTruncated })
    ));
}

#[test]
fn page_decode_short_buffer() {
    let mut payload = vec![1u8];
    for v in [10i64, 20, 30, 40] {
        payload.extend_from_slice(&v.to_be_bytes());
    }
    let mut data = vec![];
    data.extend_from_slice(&1u32.to_be_bytes());
    data.extend_from_slice(&5u64.to_be_bytes());
    data.extend_from_slice(&crc32fast::hash(&payload).to_be_bytes());
    data.push(0b11111);
    data.extend_from_slice(&payload);
    let meta = PageMeta {
        num_values: 5,
        column: field_column(1, "f", ValueType::Integer),
        statistics: PageStatistics::I64(ValueStatistics {
            min: None,
            max: None,
            distinct_count: None,
            null_count: 0,
        }),
    };
    let page = Page::new(data, meta);
    match page.to_column() {
        Err(Error::TsmPageError { reason }) => {
            assert_eq!(reason, PageFault::DataBufferShort);
            assert_eq!(reason.message(), "data buffer not enough");
        }
        other => panic!("unexpected {other:?}"),
    }
}

#[test]
fn page_decode_errors() {
    let meta = |ct: ColumnType| PageMeta {
        num_values: 1,
        column: TableColumn::new(1, "c".to_string(), ct),
        statistics: PageStatistics::I64(ValueStatistics {
            min: None,
            max: None,
            distinct_count: None,
            null_count: 0,
        }),
    };
    let vals = int_values(&[Some(1)]);
    let good = Page::build(field_column(1, "f", ValueType::Integer), &vals).unwrap();
    let tag_page = Page::new(good.bytes().to_vec(), meta(ColumnType::Tag));
    assert!(matches!(
        tag_page.to_column(),
        Err(Error::TsmPageError { reason: PageFault::TagColumn })
    ));
    let unknown = Page::new(good.bytes().to_vec(), meta(ColumnType::Field(ValueType::Unknown)));
    assert!(matches!(unknown.to_column(), Err(Error::UnsupportedDataType { .. })));

    let mut bad_tag = good.bytes().to_vec();
    bad_tag[17] = 9;
    let page = Page::new(bad_tag, meta(ColumnType::Field(ValueType::Integer)));
    assert!(matches!(page.to_column(), Err(Error::Decode)));

    let short = Page::new(vec![0, 0, 0, 9, 0], meta(ColumnType::Field(ValueType::Integer)));
    assert!(matches!(
        short.to_column(),
        Err(Error::TsmPageError { reason: PageFault::HeaderTruncated })
    ));
}

#[test]
fn column_group_push_keeps_pages_contiguous() {
    let mut g = ColumnGroup::new(7);
    assert!(g.push(page_spec(100, 10, 4, ColumnType::Time(TimeUnit::Millisecond))).is_ok());
    assert!(g.push(page_spec(110, 20, 4, ColumnType::Field(ValueType::Integer))).is_ok());
    assert_eq!(g.pages_offset(), 100);
    assert_eq!(g.size(), 30);
    assert_eq!(g.row_len(), 4);
    assert_eq!(g.pages().len(), 2);
    assert!(matches!(
        g.push(page_spec(200, 5, 4, ColumnType::Field(ValueType::Integer))),
        Err(Error::TsmColumnGroupError { reason: ColumnGroupFault::PageMisplaced { .. } })
    ));
    assert!(matches!(
        g.push(page_spec(130, 5, 3, ColumnType::Field(ValueType::Integer))),
        Err(Error::TsmColumnGroupError { reason: ColumnGroupFault::PageMisplaced { .. } })
    ));
    assert_eq!(g.size(), 30);
    let time_page = g.time_page_write_spec().unwrap();
    assert_eq!(time_page.offset(), 100);
    assert_eq!(g.column_group_id(), 7);
}

#[test]
fn column_group_without_time_page() {
    let mut g = ColumnGroup::new(3);
    assert_eq!(g.row_len(), 0);
    g.push(page_spec(0, 8, 1, ColumnType::Field(ValueType::Boolean))).unwrap();
    assert!(matches!(
        g.time_page_write_spec(),
        Err(Error::TsmColumnGroupError { reason: ColumnGroupFault::NoTimePage { id: 3 } })
    ));
}

#[test]
fn column_group_time_range_merge() {
    let mut g = ColumnGroup::new(0);
    assert_eq!(*g.time_range(), TimeRange::none());
    g.time_range_merge(&TimeRange::new(5, 9));
    g.time_range_merge(&TimeRange::new(1, 7));
    assert_eq!(*g.time_range(), TimeRange::new(1, 9));
}

#[test]
fn chunk_push_orders_groups_in_time() {
    let mut c = Chunk::new("cpu".to_string(), 42, series_key());
    let id0 = c.next_column_group_id();
    let id1 = c.next_column_group_id();
    assert_eq!((id0, id1), (0, 1));
    assert_eq!(c.current_next_column_group_id(), 2);
    c.push(group(id0, 0, 10)).unwrap();
    c.push(group(id1, 10, 20)).unwrap();
    assert_eq!(c.len(), 2);
    assert_eq!((c.min_ts(), c.max_ts()), (0, 20));
    let groups = c.column_group();
    for k in 0..groups.len() - 1 {
        assert!(groups[k].time_range().max_ts <= groups[k + 1].time_range().min_ts);
    }
    assert!(matches!(
        c.push(group(9, 15, 30)),
        Err(Error::TsmColumnGroupError {
            reason: ColumnGroupFault::TimeRangeOverlap { current_max_ts: 20, new_min_ts: 15 }
        })
    ));
    assert_eq!(c.len(), 2);
    assert_eq!(c.table_name(), "cpu");
    assert_eq!(c.series_id(), 42);
    assert_eq!(c.series_key().table, "cpu");
}

#[test]
fn chunk_second_push_of_same_id_is_refused() {
    let mut c = Chunk::new("cpu".to_string(), 1, series_key());
    c.push(group(4, 10, 10)).unwrap();
    let before = *c.time_range();
    assert!(matches!(
        c.push(group(4, 10, 10)),
        Err(Error::TsmColumnGroupError { reason: ColumnGroupFault::DuplicateId { id: 4 } })
    ));
    assert_eq!(c.len(), 1);
    assert_eq!(*c.time_range(), before);
    assert!(matches!(c.push(group(4, 10, 12)), Err(Error::TsmColumnGroupError { .. })));
    assert_eq!(c.len(), 1);
}

#[test]
fn chunk_schema_from_first_group() {
    let mut c = Chunk::new("cpu".to_string(), 1, series_key());
    assert!(c.schema().is_empty());
    let mut g = group(0, 0, 1);
    g.push(page_spec(0, 4, 2, ColumnType::Time(TimeUnit::Second))).unwrap();
    g.push(page_spec(4, 4, 2, ColumnType::Field(ValueType::Float))).unwrap();
    c.push(g).unwrap();
    let schema = c.schema();
    assert_eq!(schema.len(), 2);
    assert_eq!(schema[1].column_type, ColumnType::Field(ValueType::Float));
}

#[test]
fn chunk_group_time_range_spans_chunks() {
    let mut cg = ChunkGroup::new();
    assert_eq!(cg.time_range(), TimeRange::none());
    cg.push(ChunkWriteSpec::new(1, 0, 10, ChunkStatics { time_range: TimeRange::new(5, 8) }));
    cg.push(ChunkWriteSpec::new(2, 10, 10, ChunkStatics { time_range: TimeRange::new(-3, 6) }));
    assert_eq!(cg.len(), 2);
    assert_eq!(cg.time_range(), TimeRange::new(-3, 8));
    assert_eq!(cg.chunks()[1].series_id(), 2);
    assert_eq!(cg.chunks()[1].chunk_offset(), 10);
    assert_eq!(cg.chunks()[1].chunk_size(), 10);
    assert_eq!(cg.chunks()[0].statics().time_range, TimeRange::new(5, 8));
}

fn table_spec(name: &str, offset: u64, tr: TimeRange) -> ChunkGroupWriteSpec {
    let schema = TableSchema { name: name.to_string(), columns: vec![] };
    ChunkGroupWriteSpec::new(schema, offset, 10, tr, 1)
}

#[test]
fn chunk_group_meta_replaces_same_table() {
    let mut meta = ChunkGroupMeta::new();
    meta.push(table_spec("cpu", 0, TimeRange::new(1, 2)));
    meta.push(table_spec("mem", 10, TimeRange::new(0, 5)));
    meta.push(table_spec("cpu", 20, TimeRange::new(3, 9)));
    assert_eq!(meta.len(), 2);
    assert_eq!(meta.time_range(), TimeRange::new(0, 9));
    let cpu = meta.tables().iter().find(|t| t.name() == "cpu").unwrap();
    assert_eq!(cpu.chunk_group_offset(), 20);
    assert_eq!(cpu.chunk_group_size(), 10);
    assert_eq!(cpu.count(), 1);
    assert_eq!(*cpu.time_range(), TimeRange::new(3, 9));
    assert_eq!(meta.table_schema("mem").unwrap().name, "mem");
    assert!(meta.table_schema("disk").is_none());
}

#[test]
fn footer_round_trip_and_bloom() {
    let mut bloom = BloomFilter::new(1024);
    bloom.insert(&7u32.to_le_bytes());
    bloom.insert(&99u32.to_le_bytes());
    let footer = Footer::new(
        2,
        TimeRange::new(-5, i64::MAX),
        TableMeta::new(1, 2),
        SeriesMeta::new(bloom.bytes().to_vec(), 3, 4),
    );
    let bytes = footer.serialize().unwrap();
    let back = Footer::deserialize(&bytes).unwrap();
    assert_eq!(back, footer);
    assert_eq!(back.version(), 2);
    assert_eq!(*back.time_range(), TimeRange::new(-5, i64::MAX));
    assert_eq!(back.table().chunk_group_offset(), 1);
    assert_eq!(back.table().chunk_group_size(), 2);
    assert_eq!(back.series().chunk_offset(), 3);
    assert_eq!(back.series().chunk_size(), 4);
    assert_eq!(back.series().bloom_filter().bytes().len(), 128);
    assert!(back.maybe_series_exist(&7));
    assert!(back.maybe_series_exist(&99));
}

#[test]
fn footer_deserialize_rejects_bad_bytes() {
    assert!(matches!(Footer::deserialize(&[1, 2, 3]), Err(Error::Deserialize)));
    let footer = Footer::new(1, TimeRange::new(0, 1), TableMeta::new(0, 0), SeriesMeta::new(vec![0; 4], 0, 0));
    let mut bytes = footer.serialize().unwrap();
    bytes.push(0);
    assert!(matches!(Footer::deserialize(&bytes), Err(Error::Deserialize)));
}

#[test]
fn series_meta_round_trip() {
    let meta = SeriesMeta::new(vec![1, 2, 3], 10, 20);
    let bytes = meta.serialize().unwrap();
    assert_eq!(bytes.len(), 23);
    let back = SeriesMeta::deserialize(&bytes).unwrap();
    assert!(back == meta);
}

#[test]
fn bloom_filter_reports_inserted_keys() {
    let mut bloom = BloomFilter::new(64);
    assert_eq!(bloom.bytes().len(), 8);
    let keys: Vec<[u8; 4]> = (0u32..20).map(|k| k.to_le_bytes()).collect();
    for k in &keys {
        bloom.insert(k);
    }
    for k in &keys {
        assert!(bloom.maybe_contains(k));
    }
    let empty = BloomFilter::new(64);
    assert!(!empty.maybe_contains(&5u32.to_le_bytes()));
    let from_data = BloomFilter::with_data(bloom.bytes());
    assert!(from_data.maybe_contains(&keys[3]));
}

#[test]
fn time_range_merge_commutes() {
    let a = TimeRange::new(3, 8);
    let b = TimeRange::new(-1, 5);
    let mut x = a;
    x.merge(&b);
    let mut y = b;
    y.merge(&a);
    assert_eq!(x, y);
    assert_eq!(x, TimeRange::new(-1, 8));
    let mut z = a;
    z.merge(&TimeRange::none());
    assert_eq!(z, a);
}

#[test]
fn bitset_set_and_count() {
    let mut b = BitSet::with_len(10);
    assert_eq!(b.byte_len(), 2);
    b.set(0);
    b.set(9);
    assert!(b.get(0) && b.get(9) && !b.get(5));
    assert_eq!(b.count_ones(), 2);
    assert!(BitSet::from_bytes(9, vec![0]).is_none());
    assert!(BitSet::from_bytes(9, vec![0, 1]).unwrap().get(8));
}

#[test]
fn boolean_pages_are_bit_packed() {
    let vals: Vec<Option<FieldVal>> = (0..11)
        .map(|i| if i % 4 == 3 { None } else { Some(FieldVal::Boolean(i % 3 == 0)) })
        .collect();
    let page = Page::build(field_column(1, "b", ValueType::Boolean), &vals).unwrap();
    let payload = page.data_buffer().unwrap();
    assert_eq!(payload[0], tskv::codec::ENCODING_BITPACK);
    assert_eq!(&payload[1..5], &9u32.to_be_bytes());
    assert_eq!(payload.len(), 7);
    let column = page.to_column().unwrap();
    for (i, v) in column.values.iter().enumerate() {
        match v {
            None => assert_eq!(i % 4, 3),
            Some(FieldVal::Boolean(b)) => assert_eq!(*b, i % 3 == 0),
            other => panic!("unexpected {other:?}"),
        }
    }
}

#[test]
fn codec_round_trips_and_rejects_unknown_tags() {
    let vals = vec![FieldVal::Unsigned(1), FieldVal::Unsigned(2)];
    let bytes = encode(ValueType::Unsigned, &vals);
    assert_eq!(bytes[0], ENCODING_PLAIN);
    assert_eq!(bytes.len(), 17);
    let back = decode(ValueType::Unsigned, &bytes).unwrap();
    assert!(matches!(back[..], [FieldVal::Unsigned(1), FieldVal::Unsigned(2)]));
    assert_eq!(encode(ValueType::Integer, &vec![]), vec![ENCODING_NULL]);
    assert!(decode(ValueType::Integer, &[ENCODING_NULL]).unwrap().is_empty());
    assert!(decode(ValueType::Integer, &[7, 0, 0]).is_none());
    assert!(decode(ValueType::Integer, &[ENCODING_PLAIN, 0, 0]).is_none());
    assert!(decode(ValueType::Integer, &[]).is_none());
    let bools = vec![FieldVal::Boolean(true), FieldVal::Boolean(false), FieldVal::Boolean(true)];
    let packed = encode(ValueType::Boolean, &bools);
    assert_eq!(packed, vec![2, 0, 0, 0, 3, 0b101]);
    let plain_bools = decode(ValueType::Boolean, &[ENCODING_PLAIN, 1, 0]).unwrap();
    assert!(matches!(plain_bools[..], [FieldVal::Boolean(true), FieldVal::Boolean(false)]));
}

#[test]
fn chunk_group_serialize_round_trip() {
    let mut cg = ChunkGroup::new();
    cg.push(ChunkWriteSpec::new(7, 100, 50, ChunkStatics { time_range: TimeRange::new(-10, 10) }));
    cg.push(ChunkWriteSpec::new(8, 150, 60, ChunkStatics { time_range: TimeRange::new(i64::MIN, i64::MAX) }));
    let bytes = cg.serialize().unwrap();
    assert_eq!(bytes.len(), 4 + 2 * 36);
    let back = ChunkGroup::deserialize(&bytes).unwrap();
    assert_eq!(back.chunks(), cg.chunks());
    assert!(matches!(ChunkGroup::deserialize(&bytes[..bytes.len() - 1]), Err(Error::Deserialize)));
    let empty = ChunkGroup::new().serialize().unwrap();
    assert_eq!(ChunkGroup::deserialize(&empty).unwrap().len(), 0);
}

#[test]
fn footer_located_from_trailer() {
    let footer = Footer::new(1, TimeRange::new(0, 9), TableMeta::new(5, 6), SeriesMeta::new(vec![0; 8], 1, 2));
    let footer_bytes = footer.serialize().unwrap();
    let mut file = vec![0xaa; 40];
    file.extend_from_slice(&footer_bytes);
    file.extend_from_slice(&footer_trailer(footer_bytes.len() as u64));
    let (start, end) = footer_range(&file).unwrap();
    assert_eq!((start, end), (40, 40 + footer_bytes.len()));
    assert_eq!(Footer::deserialize(&file[start..end]).unwrap(), footer);
    assert!(footer_range(&[1, 2, 3]).is_none());
    assert!(footer_range(&[0xff; 8]).is_none());
}

#[test]
fn page_fault_messages() {
    assert_eq!(PageFault::HeaderTruncated.message(), "page header truncated");
    assert_eq!(PageFault::TagColumn.message(), "tag column not support now");
    assert_eq!(PageFault::ValueTypeMismatch.message(), "value does not match column type");
}

#[test]
fn chunk_from_parts_checks_each_group() {
    let c = Chunk::from_parts(
        "cpu".to_string(),
        5,
        series_key(),
        9,
        vec![group(0, 0, 5), group(1, 5, 8)],
    )
    .unwrap();
    assert_eq!(c.len(), 2);
    assert_eq!(c.current_next_column_group_id(), 9);
    assert_eq!(*c.time_range(), TimeRange::new(0, 8));
    assert!(matches!(
        Chunk::from_parts("cpu".to_string(), 5, series_key(), 2, vec![group(0, 0, 5), group(0, 6, 8)]),
        Err(Error::TsmColumnGroupError { reason: ColumnGroupFault::DuplicateId { id: 0 } })
    ));
    assert!(matches!(
        Chunk::from_parts("cpu".to_string(), 5, series_key(), 2, vec![group(0, 3, 5), group(1, 4, 8)]),
        Err(Error::TsmColumnGroupError { reason: ColumnGroupFault::TimeRangeOverlap { .. } })
    ));
}

#[test]
fn chunk_group_defaults_are_empty() {
    assert_eq!(ChunkGroup::default().len(), 0);
    assert_eq!(ChunkGroupMeta::default().len(), 0);
}

#[test]
fn repeated_values_are_run_length_encoded() {
    let mut vals = Vec::new();
    for _ in 0..50 {
        vals.push(Some(FieldVal::Integer(-3)));
    }
    vals.push(None);
    for _ in 0..20 {
        vals.push(Some(FieldVal::Integer(1_700_000_000)));
    }
    let page = Page::build(field_column(1, "f", ValueType::Integer), &vals).unwrap();
    let payload = page.data_buffer().unwrap();
    assert_eq!(payload[0], ENCODING_RUNS);
    assert_eq!(payload.len(), 1 + 2 * 12);
    let column = page.to_column().unwrap();
    assert_eq!(column.values.len(), 71);
    assert!(matches!(column.values[0], Some(FieldVal::Integer(-3))));
    assert!(column.values[50].is_none());
    assert!(matches!(column.values[70], Some(FieldVal::Integer(1_700_000_000))));

    let floats: Vec<FieldVal> = (0..10).map(|_| FieldVal::Float(0.5f64.to_bits())).collect();
    let bytes = encode(ValueType::Float, &floats);
    assert_eq!(bytes[0], ENCODING_RUNS);
    let back = decode(ValueType::Float, &bytes).unwrap();
    assert_eq!(back.len(), 10);
    assert!(back.iter().all(|v| matches!(v, FieldVal::Float(b) if f64::from_bits(*b) == 0.5)));
}

#[test]
fn malformed_runs_are_rejected() {
    let mut zero_run = vec![ENCODING_RUNS];
    zero_run.extend_from_slice(&0u32.to_be_bytes());
    zero_run.extend_from_slice(&7u64.to_be_bytes());
    assert!(decode(ValueType::Unsigned, &zero_run).is_none());
    let mut run = vec![ENCODING_RUNS];
    run.extend_from_slice(&3u32.to_be_bytes());
    run.extend_from_slice(&7u64.to_be_bytes());
    let vals = decode(ValueType::Unsigned, &run).unwrap();
    assert!(matches!(vals[..], [FieldVal::Unsigned(7), FieldVal::Unsigned(7), FieldVal::Unsigned(7)]));
    assert!(decode(ValueType::Unsigned, &run[..10]).is_none());
    assert!(decode(ValueType::String, &run).is_none());
}

#[test]
fn decode_error_comes_before_short_bitmap() {
    let mut data = vec![];
    data.extend_from_slice(&0u32.to_be_bytes());
    data.extend_from_slice(&9u64.to_be_bytes());
    let payload = vec![9u8, 1, 2];
    data.extend_from_slice(&crc32fast::hash(&payload).to_be_bytes());
    data.extend_from_slice(&payload);
    let meta = PageMeta {
        num_values: 9,
        column: field_column(1, "f", ValueType::Integer),
        statistics: PageStatistics::I64(ValueStatistics {
            min: None,
            max: None,
            distinct_count: None,
            null_count: 0,
        }),
    };
    let page = Page::new(data, meta);
    assert!(matches!(page.to_column(), Err(Error::Decode)));
}

#[test]
fn chunk_schema_uses_smallest_group_id() {
    let mut c = Chunk::new("cpu".to_string(), 1, series_key());
    let mut later = group(5, 0, 1);
    later.push(page_spec(0, 4, 2, ColumnType::Time(TimeUnit::Second))).unwrap();
    c.push(later).unwrap();
    let mut earlier = group(2, 1, 2);
    earlier.push(page_spec(4, 4, 2, ColumnType::Field(ValueType::Boolean))).unwrap();
    earlier.push(page_spec(8, 4, 2, ColumnType::Field(ValueType::Integer))).unwrap();
    c.push(earlier).unwrap();
    let schema = c.schema();
    assert_eq!(schema.len(), 2);
    assert_eq!(schema[0].column_type, ColumnType::Field(ValueType::Boolean));
}

#[test]
fn crc_error_keeps_page_meta() {
    let vals = int_values(&[Some(1)]);
    let page = Page::build(field_column(3, "g", ValueType::Integer), &vals).unwrap();
    let mut bytes = page.bytes().to_vec();
    bytes[12] ^= 1;
    let corrupted = Page::new(bytes, Page::build(field_column(3, "g", ValueType::Integer), &vals).unwrap().meta);
    match corrupted.crc_validation() {
        Err(Error::PageHashCheckFailed { page, .. }) => {
            assert_eq!(page.meta().column.name, "g");
            assert_eq!(page.meta().num_values, 1);
        }
        other => panic!("unexpected {other:?}"),
    }
}
