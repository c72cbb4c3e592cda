//! Merging the outputs of several batch readers into one stream, under an
//! optional limit on the number of rows.
use vstd::prelude::*;

use crate::error::{CommonFault, Error};

verus! {

/// A stream with several partitions that are polled one at a time, never
/// two at once.
pub trait PartitionedStream {
    type Output;

    /// The number of partitions.
    fn partitions(&self) -> usize;

    /// The next item of partition `stream_idx`; `None` once it is exhausted.
    fn poll_next(&mut self, stream_idx: usize) -> Option<Self::Output>;
}

/// Readers whose outputs are merged into one stream.
#[derive(Debug)]
pub struct ParallelMergeAdapter<S, R> {
    schema: S,
    inputs: Vec<R>,
    limit: Option<usize>,
}

impl<S, R> ParallelMergeAdapter<S, R> {
    pub closed spec fn spec_inputs(&self) -> Seq<R> {
        self.inputs@
    }

    pub closed spec fn spec_limit(&self) -> Option<usize> {
        self.limit
    }

    pub closed spec fn spec_schema(&self) -> S {
        self.schema
    }

    /// An adapter over `inputs`, which must not be empty.
    pub fn try_new(schema: S, inputs: Vec<R>, limit: Option<usize>) -> (r: Result<Self, Error>)
        ensures
            inputs@.len() == 0 <==> r is Err,
            r matches Err(e) ==> (e matches Error::CommonError { reason: CommonFault::NoInputs }),
            r matches Ok(a) ==> a.spec_inputs() == inputs@ && a.spec_limit() == limit
                && a.spec_schema() == schema,
    {
        if inputs.len() == 0 {
            return Err(Error::CommonError { reason: CommonFault::NoInputs });
        }
        Ok(ParallelMergeAdapter { schema, inputs, limit })
    }

    pub fn schema(&self) -> (r: &S)
        ensures
            *r == self.spec_schema(),
    {
        &self.schema
    }

    /// The readers, in order.
    pub fn children(&self) -> (r: &[R])
        ensures
            r@ == self.spec_inputs(),
    {
        self.inputs.as_slice()
    }

    pub fn limit(&self) -> (r: Option<usize>)
        ensures
            r == self.spec_limit(),
    {
        self.limit
    }

    /// A fresh merged stream under this adapter's limit.
    pub fn process(&self) -> (r: SchemableParallelMergeStream)
        ensures
            r.wf(),
            r.spec_limit() == self.spec_limit(),
            r.spec_remain() == self.spec_limit(),
            r.spec_emitted() == 0,
            r.spec_errors() == 0,
            !r.spec_finished(),
    {
        SchemableParallelMergeStream::new(self.limit)
    }
}

/// What the merged inputs gave.
#[derive(Clone, Copy, Debug, PartialEq, Eq, Structural)]
pub enum Polled {
    /// A batch of this many rows.
    Batch { rows: usize },
    /// An input failed.
    Failed,
    /// Every input is exhausted.
    Exhausted,
}

/// What the merged stream gives out.
#[derive(Clone, Copy, Debug, PartialEq, Eq, Structural)]
pub enum Emit {
    /// The first `take` rows of the batch.
    Rows { take: usize },
    /// The error of the failed input.
    Error,
    /// The stream has ended.
    End,
}

/// What one poll does: the stream `a`, given `polled`, gives out `e` and
/// becomes `b`.
pub open spec fn poll_transition(
    a: SchemableParallelMergeStream,
    polled: Polled,
    e: Emit,
    b: SchemableParallelMergeStream,
) -> bool {
    &&& b.spec_limit() == a.spec_limit()
    &&& (a.spec_finished() ==> e == Emit::End && b.spec_emitted() == a.spec_emitted()
        && b.spec_errors() == a.spec_errors() && b.spec_finished())
    &&& (!a.spec_finished() ==> match polled {
        Polled::Exhausted => e == Emit::End && b.spec_finished() && b.spec_emitted()
            == a.spec_emitted() && b.spec_errors() == a.spec_errors(),
        Polled::Failed => e == Emit::Error && b.spec_finished() && b.spec_emitted()
            == a.spec_emitted() && b.spec_errors() == a.spec_errors() + 1,
        Polled::Batch { rows } => b.spec_errors() == a.spec_errors() && match a.spec_remain() {
            None => e == (Emit::Rows { take: rows }) && !b.spec_finished() && b.spec_emitted()
                == a.spec_emitted() + rows,
            Some(m) => if m == 0 {
                e == Emit::End && b.spec_finished() && b.spec_emitted() == a.spec_emitted()
            } else {
                let take = if rows <= m { rows } else { m };
                e == (Emit::Rows { take }) && !b.spec_finished() && b.spec_remain() == Some(
                    (m - take) as usize,
                ) && b.spec_emitted() == a.spec_emitted() + take
            },
        },
    })
}

/// The rows given out in `emits`.
pub open spec fn rows_emitted(emits: Seq<Emit>) -> nat
    decreases emits.len(),
{
    if emits.len() == 0 {
        0
    } else {
        rows_emitted(emits.drop_last()) + match emits.last() {
            Emit::Rows { take } => take as nat,
            _ => 0nat,
        }
    }
}

/// The errors given out in `emits`.
pub open spec fn errors_emitted(emits: Seq<Emit>) -> nat
    decreases emits.len(),
{
    if emits.len() == 0 {
        0
    } else {
        errors_emitted(emits.drop_last()) + if emits.last() == Emit::Error { 1nat } else { 0nat }
    }
}

/// The state of a merged stream: the rows still allowed, and whether it ended.
pub struct SchemableParallelMergeStream {
    remain: Option<usize>,
    finished: bool,
    limit: Ghost<Option<usize>>,
    emitted: Ghost<nat>,
    errors: Ghost<nat>,
}

impl SchemableParallelMergeStream {
    pub closed spec fn spec_limit(&self) -> Option<usize> {
        self.limit@
    }

    /// The number of rows given out so far.
    pub closed spec fn spec_emitted(&self) -> nat {
        self.emitted@
    }

    /// The number of errors given out so far.
    pub closed spec fn spec_errors(&self) -> nat {
        self.errors@
    }

    pub closed spec fn spec_finished(&self) -> bool {
        self.finished
    }

    pub closed spec fn spec_remain(&self) -> Option<usize> {
        self.remain
    }

    /// Rows given out and rows still allowed add up to the limit; an error
    /// ends the stream.
    pub closed spec fn wf(&self) -> bool {
        &&& match self.limit@ {
            None => self.remain is None,
            Some(l) => self.remain matches Some(m) && self.emitted@ + m == l,
        }
        &&& self.errors@ <= 1
        &&& self.errors@ == 1 ==> self.finished
    }

    pub fn new(limit: Option<usize>) -> (r: Self)
        ensures
            r.wf(),
            r.spec_limit() == limit,
            r.spec_remain() == limit,
            r.spec_emitted() == 0,
            r.spec_errors() == 0,
            !r.spec_finished(),
    {
        SchemableParallelMergeStream {
            remain: limit,
            finished: false,
            limit: Ghost(limit),
            emitted: Ghost(0),
            errors: Ghost(0),
        }
    }

    /// What the stream gives out for what the inputs gave.
    pub fn poll_next(&mut self, polled: Polled) -> (r: Emit)
        requires
            old(self).wf(),
        ensures
            final(self).wf(),
            poll_transition(*old(self), polled, r, *final(self)),
    {
        if self.finished {
            return Emit::End;
        }
        match polled {
            Polled::Exhausted => {
                self.finished = true;
                Emit::End
            },
            Polled::Failed => {
                self.finished = true;
                self.errors = Ghost((self.errors@ + 1) as nat);
                Emit::Error
            },
            Polled::Batch { rows } => match self.remain {
                None => {
                    self.emitted = Ghost((self.emitted@ + rows) as nat);
                    Emit::Rows { take: rows }
                },
                Some(m) => {
                    if m == 0 {
                        self.finished = true;
                        Emit::End
                    } else {
                        let take = if rows <= m { rows } else { m };
                        self.remain = Some(m - take);
                        self.emitted = Ghost((self.emitted@ + take) as nat);
                        Emit::Rows { take }
                    }
                },
            },
        }
    }
}

/// Poll `i` of a run: stream `states[i]`, given `polls[i]`, gives out
/// `emits[i]` and becomes the well-formed `states[i + 1]`.
pub open spec fn run_step(
    states: Seq<SchemableParallelMergeStream>,
    polls: Seq<Polled>,
    emits: Seq<Emit>,
    i: int,
) -> bool {
    states[i + 1].wf() && poll_transition(states[i], polls[i], emits[i], states[i + 1])
}

/// Over any run of polls of a fresh stream: the rows given out never exceed
/// the limit, at most one error is given out, and after an error the stream
/// gives out only its end.
pub proof fn lemma_merge_run(
    states: Seq<SchemableParallelMergeStream>,
    polls: Seq<Polled>,
    emits: Seq<Emit>,
)
    requires
        states.len() == emits.len() + 1,
        polls.len() == emits.len(),
        states[0].wf(),
        states[0].spec_emitted() == 0,
        states[0].spec_errors() == 0,
        !states[0].spec_finished(),
        forall|i: int| 0 <= i < emits.len() ==> #[trigger] run_step(states, polls, emits, i),
    ensures
        states[0].spec_limit() matches Some(l) ==> rows_emitted(emits) <= l,
        errors_emitted(emits) <= 1,
        forall|j: int, k: int|
            #![trigger emits[j], emits[k]]
            0 <= j < k < emits.len() && emits[j] == Emit::Error ==> emits[k] == Emit::End,
{
    lemma_merge_run_counts(states, polls, emits);
}

proof fn lemma_poll_step(
    a: SchemableParallelMergeStream,
    p: Polled,
    e: Emit,
    b: SchemableParallelMergeStream,
)
    requires
        poll_transition(a, p, e, b),
    ensures
        b.spec_limit() == a.spec_limit(),
        b.spec_emitted() == a.spec_emitted() + match e {
            Emit::Rows { take } => take as nat,
            _ => 0nat,
        },
        b.spec_errors() == a.spec_errors() + if e == Emit::Error { 1nat } else { 0nat },
        e == Emit::Error ==> b.spec_finished(),
        a.spec_finished() ==> e == Emit::End && b.spec_finished(),
{
}

proof fn lemma_merge_run_counts(
    states: Seq<SchemableParallelMergeStream>,
    polls: Seq<Polled>,
    emits: Seq<Emit>,
)
    requires
        states.len() == emits.len() + 1,
        polls.len() == emits.len(),
        states[0].wf(),
        states[0].spec_emitted() == 0,
        states[0].spec_errors() == 0,
        !states[0].spec_finished(),
        forall|i: int| 0 <= i < emits.len() ==> #[trigger] run_step(states, polls, emits, i),
    ensures
        states[emits.len() as int].spec_emitted() == rows_emitted(emits),
        states[emits.len() as int].spec_errors() == errors_emitted(emits),
        states[emits.len() as int].spec_limit() == states[0].spec_limit(),
        states[emits.len() as int].wf(),
        forall|j: int| 0 <= j < emits.len() && #[trigger] emits[j] == Emit::Error ==> states[emits.len() as int].spec_finished(),
        forall|j: int, k: int|
            #![trigger emits[j], emits[k]]
            0 <= j < k < emits.len() && emits[j] == Emit::Error ==> emits[k] == Emit::End,
        states[0].spec_limit() matches Some(l) ==> rows_emitted(emits) <= l,
        errors_emitted(emits) <= 1,
    decreases emits.len(),
{
    let n = emits.len() as int;
    if n > 0 {
        let st = states.drop_last();
        let ps = polls.drop_last();
        let es = emits.drop_last();
        assert forall|i: int| 0 <= i < es.len() implies #[trigger] run_step(st, ps, es, i) by {
            assert(run_step(states, polls, emits, i));
            assert(st[i] == states[i] && st[i + 1] == states[i + 1] && ps[i] == polls[i] && es[i]
                == emits[i]);
        }
        assert(st[0] == states[0]);
        lemma_merge_run_counts(st, ps, es);
        assert(run_step(states, polls, emits, n - 1));
        assert(poll_transition(states[n - 1], polls[n - 1], emits[n - 1], states[n]));
        lemma_poll_step(states[n - 1], polls[n - 1], emits[n - 1], states[n]);
        assert(st[n - 1] == states[n - 1]);
        assert(emits.last() == emits[n - 1]);
        assert forall|j: int| 0 <= j < n && #[trigger] emits[j] == Emit::Error implies states[n].spec_finished() by {
            if j < n - 1 {
                assert(es[j] == emits[j]);
            }
        }
        assert forall|j: int, k: int|
            #![trigger emits[j], emits[k]]
            0 <= j < k < n && emits[j] == Emit::Error implies emits[k] == Emit::End by {
            assert(es[j] == emits[j]);
            if k < n - 1 {
                assert(es[k] == emits[k]);
            } else {
                assert(states[n - 1].spec_finished());
            }
        }
        lemma_merge_limit(states[n]);
    } else {
        lemma_merge_limit(states[0]);
    }
}

/// Under a limit, a merged stream never gives out more rows than the limit,
/// and gives out at most one error, after which it has ended.
pub proof fn lemma_merge_limit(s: SchemableParallelMergeStream)
    requires
        s.wf(),
    ensures
        s.spec_limit() matches Some(l) ==> s.spec_emitted() <= l,
        s.spec_errors() <= 1,
        s.spec_errors() == 1 ==> s.spec_finished(),
{
}

/// Whether some field is named `name`.
pub open spec fn has_column(fields: Seq<String>, name: Seq<char>) -> bool {
    exists|j: int| 0 <= j < fields.len() && (#[trigger] fields[j])@ == name
}

/// The index of the first field named `name`.
pub fn column_index(fields: &Vec<String>, name: &str) -> (r: Option<usize>)
    ensures
        r matches Some(i) ==> i < fields@.len() && fields@[i as int]@ == name@ && forall|j: int|
            0 <= j < i ==> (#[trigger] fields@[j])@ != name@,
        r is None ==> forall|j: int| 0 <= j < fields@.len() ==> (#[trigger] fields@[j])@ != name@,
{
    let key = name.to_owned();
    let mut i: usize = 0;
    while i < fields.len()
        invariant
            i <= fields@.len(),
            key@ == name@,
            forall|j: int| 0 <= j < i ==> (#[trigger] fields@[j])@ != name@,
        decreases fields@.len() - i,
    {
        if fields[i] == key {
            return Some(i);
        }
        i += 1;
    }
    None
}

/// For each input's fields, the index of its column named `column_name`;
/// an error when an input has no such column.
pub fn sort_column_indices(inputs: &Vec<Vec<String>>, column_name: &str) -> (r: Result<
    Vec<usize>,
    Error,
>)
    ensures
        r is Ok <==> forall|k: int|
            0 <= k < inputs@.len() ==> has_column(#[trigger] inputs@[k]@, column_name@),
        r matches Ok(ix) ==> ix@.len() == inputs@.len() && forall|k: int|
            0 <= k < inputs@.len() ==> #[trigger] ix@[k] < inputs@[k]@.len() && inputs@[k]@[ix@[k] as int]@
                == column_name@ && forall|j: int| 0 <= j < ix@[k] ==> inputs@[k]@[j]@ != column_name@,
        r matches Err(e) ==> (e matches Error::SchemaError { column_name: n } && n@ == column_name@),
{
    let mut out: Vec<usize> = Vec::new();
    let mut k: usize = 0;
    while k < inputs.len()
        invariant
            k <= inputs@.len(),
            out@.len() == k,
            forall|q: int|
                0 <= q < k ==> #[trigger] out@[q] < inputs@[q]@.len() && inputs@[q]@[out@[q] as int]@
                    == column_name@ && forall|j: int| 0 <= j < out@[q] ==> inputs@[q]@[j]@ != column_name@,
        decreases inputs@.len() - k,
    {
        match column_index(&inputs[k], column_name) {
            Some(i) => {
                out.push(i);
            },
            None => {
                proof {
                    assert(!has_column(inputs@[k as int]@, column_name@));
                }
                return Err(Error::SchemaError { column_name: column_name.to_owned() });
            },
        }
        k += 1;
    }
    proof {
        assert forall|q: int| 0 <= q < inputs@.len() implies has_column(
            #[trigger] inputs@[q]@,
            column_name@,
        ) by {
            assert(inputs@[q]@[out@[q] as int]@ == column_name@);
        }
    }
    Ok(out)
}

} // verus!
