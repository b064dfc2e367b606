//! The decode pipeline: a state machine that walks the records of a
//! container under a recovery policy and reports what it found.

use crate::container::{open_result, Item, Reader};
use crate::error::DecodeError;
use crate::header::HEADER_LEN;
use crate::record::Record;
use vstd::prelude::*;

verus! {

/// What the pipeline does when a record cannot be decoded.
#[derive(Clone, Copy, Debug, PartialEq, Eq, Structural)]
pub enum Policy {
    /// Stop at the first record that fails and keep what was decoded so far.
    StopOnError,
    /// Count the failure and go on with the next record.
    SkipOnError,
}

/// The states of the pipeline.
#[derive(Clone, Copy, Debug, PartialEq, Eq, Structural)]
pub enum PipelineState {
    /// Records are still to be read.
    Reading,
    /// The pass is over: every declared record was attempted, or the bytes
    /// ran out first.
    Done {
        /// Whether the bytes ran out before the declared number of records.
        truncated: bool,
    },
    /// The pass was given up at a record that failed.
    Aborted {
        /// Why the record failed.
        error: DecodeError,
    },
}

/// A record that could not be decoded.
#[derive(Clone, Copy, Debug, PartialEq, Eq, Structural)]
pub struct Failure {
    /// The number of records that the pass attempted before this one.
    pub position: u32,
    /// Why the record could not be decoded.
    pub error: DecodeError,
}

/// The pipeline as a mathematical value: what is left to read, what has been
/// collected, and the state it is in.
pub struct Progress<V> {
    /// The bytes not read yet.
    pub rest: Seq<u8>,
    /// The declared records not attempted yet.
    pub pending: nat,
    /// The records decoded so far, in order.
    pub records: Seq<V>,
    /// The records that failed so far, in order.
    pub failures: Seq<Failure>,
    /// The state of the machine.
    pub state: PipelineState,
}

impl<V> Progress<V> {
    /// The number of records attempted so far.
    pub open spec fn attempted(self) -> nat {
        self.records.len() + self.failures.len()
    }
}

/// The pipeline before its first step.
pub open spec fn start<V>(rest: Seq<u8>, pending: nat) -> Progress<V> {
    Progress {
        rest,
        pending,
        records: Seq::empty(),
        failures: Seq::empty(),
        state: PipelineState::Reading,
    }
}

/// One transition. From `Reading` the machine ends in `Done` when nothing is
/// pending or nothing is left, and otherwise attempts one record: a decoded
/// record is appended, a failure is noted with its position and, under the
/// stop policy, ends the pass in `Aborted`. The other states are final.
pub open spec fn step<R: Record>(p: Progress<R::V>, policy: Policy) -> Progress<R::V> {
    if p.state != PipelineState::Reading {
        p
    } else if p.pending == 0 {
        Progress { state: PipelineState::Done { truncated: false }, ..p }
    } else if p.rest.len() == 0 {
        Progress { state: PipelineState::Done { truncated: true }, ..p }
    } else {
        let parsed = R::parse(p.rest);
        let rest = p.rest.skip(parsed.consumed as int);
        let pending = (p.pending - 1) as nat;
        match parsed.outcome {
            Ok(v) => Progress { rest, pending, records: p.records.push(v), ..p },
            Err(error) => Progress {
                rest,
                pending,
                failures: p.failures.push(Failure { position: p.attempted() as u32, error }),
                state: match policy {
                    Policy::StopOnError => PipelineState::Aborted { error },
                    Policy::SkipOnError => PipelineState::Reading,
                },
                ..p
            },
        }
    }
}

/// The machine run to a final state.
pub open spec fn run<R: Record>(p: Progress<R::V>, policy: Policy) -> Progress<R::V>
    decreases p.pending, (if p.state == PipelineState::Reading { 1nat } else { 0nat }),
{
    if p.state != PipelineState::Reading {
        p
    } else {
        run::<R>(step::<R>(p, policy), policy)
    }
}

/// The result of a pass as a mathematical value.
pub struct ReportView<V> {
    /// The decoded records, in the order of the container.
    pub records: Seq<V>,
    /// The records that failed, in the order of the container.
    pub failures: Seq<Failure>,
    /// The final state, `Done` or `Aborted`.
    pub end: PipelineState,
}

/// The report of a pass over `pending` declared records in `rest`.
pub open spec fn pass<R: Record>(rest: Seq<u8>, pending: nat, policy: Policy) -> ReportView<R::V> {
    let last = run::<R>(start(rest, pending), policy);
    ReportView { records: last.records, failures: last.failures, end: last.state }
}

/// The result of decoding `bytes` as a container of `R` records: the error
/// of the header, or the report of the pass over the body.
pub open spec fn decode_spec<R: Record>(bytes: Seq<u8>, policy: Policy) -> Result<
    ReportView<R::V>,
    DecodeError,
> {
    match open_result::<R>(bytes) {
        Ok(header) => Ok(
            pass::<R>(bytes.skip(HEADER_LEN as int), header.record_count as nat, policy),
        ),
        Err(e) => Err(e),
    }
}

/// What a pass over a container found.
#[derive(Debug)]
pub struct DecodeReport<R> {
    /// The decoded records, in the order of the container.
    pub records: Vec<R>,
    /// The records that failed, in the order of the container.
    pub failures: Vec<Failure>,
    /// The final state, `Done` or `Aborted`.
    pub end: PipelineState,
}

impl<R: Record> View for DecodeReport<R> {
    type V = ReportView<R::V>;

    open spec fn view(&self) -> ReportView<R::V> {
        ReportView {
            records: crate::container::views(self.records@),
            failures: self.failures@,
            end: self.end,
        }
    }
}

impl<R> DecodeReport<R> {
    /// The number of records that failed.
    pub fn failed(&self) -> (n: usize)
        ensures
            n == self.failures@.len(),
    {
        self.failures.len()
    }

    /// The condition the pass ended on, if it did not end cleanly:
    /// `Truncated` where the bytes ran out, else the error it was given up on.
    pub fn error(&self) -> (e: Option<DecodeError>)
        ensures
            e == match self.end {
                PipelineState::Reading => None,
                PipelineState::Done { truncated } => if truncated {
                    Some(DecodeError::Truncated)
                } else {
                    None
                },
                PipelineState::Aborted { error } => Some(error),
            },
    {
        match self.end {
            PipelineState::Reading => None,
            PipelineState::Done { truncated } => if truncated {
                Some(DecodeError::Truncated)
            } else {
                None
            },
            PipelineState::Aborted { error } => Some(error),
        }
    }
}

/// Runs the pipeline over what `reader` has left and reports the result.
pub fn drain<R: Record>(reader: &mut Reader<'_, R>, policy: Policy) -> (report: DecodeReport<R>)
    ensures
        report@ == pass::<R>(old(reader).rest(), old(reader).pending(), policy),
        report.end != PipelineState::Reading,
        final(reader).header_spec() == old(reader).header_spec(),
        final(reader).rest() == run::<R>(
            start(old(reader).rest(), old(reader).pending()),
            policy,
        ).rest,
        final(reader).pending() == run::<R>(
            start(old(reader).rest(), old(reader).pending()),
            policy,
        ).pending,
{
    let mut records: Vec<R> = Vec::new();
    let mut failures: Vec<Failure> = Vec::new();
    let mut state = PipelineState::Reading;
    let ghost first: Progress<R::V> = start(reader.rest(), reader.pending());
    let declared: u32 = reader.remaining();
    proof {
        assert(crate::container::views(records@) =~= Seq::<R::V>::empty());
    }
    while state == PipelineState::Reading
        invariant
            records@.len() + failures@.len() + reader.pending() <= declared,
            reader.header_spec() == old(reader).header_spec(),
            first == start::<R::V>(old(reader).rest(), old(reader).pending()),
            run::<R>(first, policy) == run::<R>(
                Progress {
                    rest: reader.rest(),
                    pending: reader.pending(),
                    records: crate::container::views(records@),
                    failures: failures@,
                    state,
                },
                policy,
            ),
        decreases reader.pending(), (if state == PipelineState::Reading { 1nat } else { 0nat }),
    {
        let ghost before = Progress {
            rest: reader.rest(),
            pending: reader.pending(),
            records: crate::container::views(records@),
            failures: failures@,
            state,
        };
        let attempted: usize = records.len() + failures.len();
        match reader.next() {
            Item::End { truncated } => {
                state = PipelineState::Done { truncated };
            },
            Item::Record(rec) => {
                records.push(rec);
                proof {
                    assert(crate::container::views(records@) =~= before.records.push(rec@));
                }
            },
            Item::Failed(error) => {
                failures.push(Failure { position: attempted as u32, error });
                match policy {
                    Policy::StopOnError => {
                        state = PipelineState::Aborted { error };
                    },
                    Policy::SkipOnError => {},
                }
            },
        }
        proof {
            assert(step::<R>(before, policy) == (Progress {
                rest: reader.rest(),
                pending: reader.pending(),
                records: crate::container::views(records@),
                failures: failures@,
                state,
            }));
        }
    }
    DecodeReport { records, failures, end: state }
}

/// Decodes `bytes` as a container of `R` records under `policy`. The header
/// decides first: a container of another kind is refused with `InvalidMagic`.
pub fn decode_container<R: Record>(bytes: &[u8], policy: Policy) -> (r: Result<
    DecodeReport<R>,
    DecodeError,
>)
    ensures
        match r {
            Ok(report) => decode_spec::<R>(bytes@, policy) == Ok::<ReportView<R::V>, DecodeError>(
                report@,
            ),
            Err(e) => decode_spec::<R>(bytes@, policy) == Err::<ReportView<R::V>, DecodeError>(e),
        },
{
    match Reader::<R>::open(bytes) {
        Ok(reader) => {
            let mut reader = reader;
            Ok(drain(&mut reader, policy))
        },
        Err(e) => Err(e),
    }
}

} // verus!
