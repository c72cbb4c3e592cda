use tskv::error::{CommonFault, Error};
use tskv::merge::{sort_column_indices, Emit, ParallelMergeAdapter, Polled};

#[test]
fn parallel_merge_with_limit() {
    let adapter = ParallelMergeAdapter::try_new("schema", vec![0u32, 1, 2], Some(25)).unwrap();
    assert_eq!(adapter.children().len(), 3);
    assert_eq!(adapter.limit(), Some(25));
    let mut stream = adapter.process();
    let mut rows = 0;
    let mut emitted = Vec::new();
    for _partition in 0..3 {
        match stream.poll_next(Polled::Batch { rows: 10 }) {
            Emit::Rows { take } => {
                rows += take;
                emitted.push(take);
            }
            other => panic!("unexpected {other:?}"),
        }
    }
    assert_eq!(emitted, vec![10, 10, 5]);
    assert_eq!(rows, 25);
    assert_eq!(stream.poll_next(Polled::Batch { rows: 10 }), Emit::End);
    assert_eq!(stream.poll_next(Polled::Batch { rows: 10 }), Emit::End);
}

#[test]
fn parallel_merge_without_limit() {
    let adapter = ParallelMergeAdapter::try_new((), vec![1u8], None).unwrap();
    let mut stream = adapter.process();
    assert_eq!(stream.poll_next(Polled::Batch { rows: 1000 }), Emit::Rows { take: 1000 });
    assert_eq!(stream.poll_next(Polled::Exhausted), Emit::End);
    assert_eq!(stream.poll_next(Polled::Batch { rows: 1 }), Emit::End);
}

#[test]
fn parallel_merge_error_surfaces_once() {
    let adapter = ParallelMergeAdapter::try_new((), vec![1u8, 2], Some(100)).unwrap();
    let mut stream = adapter.process();
    assert_eq!(stream.poll_next(Polled::Batch { rows: 3 }), Emit::Rows { take: 3 });
    assert_eq!(stream.poll_next(Polled::Failed), Emit::Error);
    assert_eq!(stream.poll_next(Polled::Failed), Emit::End);
    assert_eq!(stream.poll_next(Polled::Batch { rows: 3 }), Emit::End);
}

#[test]
fn parallel_merge_zero_limit_ends_at_once() {
    let adapter = ParallelMergeAdapter::try_new((), vec![1u8], Some(0)).unwrap();
    let mut stream = adapter.process();
    assert_eq!(stream.poll_next(Polled::Batch { rows: 3 }), Emit::End);
}

#[test]
fn parallel_merge_needs_inputs() {
    let inputs: Vec<u8> = vec![];
    assert!(matches!(
        ParallelMergeAdapter::try_new((), inputs, None),
        Err(Error::CommonError { reason: CommonFault::NoInputs })
    ));
}

#[test]
fn sort_column_found_in_each_input() {
    let inputs = vec![
        vec!["time".to_string(), "v".to_string()],
        vec!["v".to_string(), "time".to_string()],
    ];
    assert_eq!(sort_column_indices(&inputs, "time").unwrap(), vec![0, 1]);
    match sort_column_indices(&inputs, "host") {
        Err(Error::SchemaError { column_name }) => assert_eq!(column_name, "host"),
        other => panic!("unexpected {other:?}"),
    }
}

struct Batches {
    parts: Vec<Vec<usize>>,
}

impl tskv::merge::PartitionedStream for Batches {
    type Output = usize;

    fn partitions(&self) -> usize {
        self.parts.len()
    }

    fn poll_next(&mut self, stream_idx: usize) -> Option<usize> {
        let part = &mut self.parts[stream_idx];
        if part.is_empty() {
            None
        } else {
            Some(part.remove(0))
        }
    }
}

#[test]
fn partitions_polled_one_at_a_time_under_limit() {
    use_partitions(Batches { parts: vec![vec![10], vec![10], vec![10]] });
}

fn use_partitions<P: tskv::merge::PartitionedStream<Output = usize>>(mut p: P) {
    let adapter = ParallelMergeAdapter::try_new((), vec![(); p.partitions()], Some(25)).unwrap();
    let mut stream = adapter.process();
    let mut total = 0;
    for idx in 0..p.partitions() {
        while let Some(rows) = p.poll_next(idx) {
            if let Emit::Rows { take } = stream.poll_next(Polled::Batch { rows }) {
                total += take;
            }
        }
    }
    assert_eq!(total, 25);
}

#[test]
fn sort_column_is_first_of_its_name() {
    let inputs = vec![vec!["v".to_string(), "time".to_string(), "time".to_string()]];
    assert_eq!(sort_column_indices(&inputs, "time").unwrap(), vec![1]);
}
