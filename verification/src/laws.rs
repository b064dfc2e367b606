//! What holds of every container: records come back as they were written,
//! a reader refuses containers of another kind, and a container that was cut
//! short still yields every record that is whole.

use crate::container::{concat_encodings, container_bytes, header_of, open_result};
use crate::error::DecodeError;
use crate::header::{Header, HEADER_LEN};
use crate::mixed::{MixedRecord, MixedRecordView};
use crate::pipeline::{
    decode_spec, run, start, step, Failure, PipelineState, Policy, Progress, ReportView,
};
use crate::record::{Parsed, Record};
use vstd::prelude::*;

verus! {

/// Whether every record of the sequence is valid.
pub open spec fn all_valid<R: Record>(records: Seq<R::V>) -> bool {
    forall|i: int| 0 <= i < records.len() ==> R::valid(#[trigger] records[i])
}

/// Decoding the bytes of a valid record gives the record again.
pub proof fn lemma_decode_encode<R: Record>(v: R::V)
    requires
        R::valid(v),
    ensures
        R::parse(R::encoding(v)) == (Parsed {
            outcome: Ok::<R::V, DecodeError>(v),
            consumed: R::encoding(v).len(),
        }),
{
    R::lemma_round_trip(v, Seq::empty());
    assert(R::encoding(v) + Seq::<u8>::empty() =~= R::encoding(v));
}

/// A valid record takes at least one byte.
pub proof fn lemma_encoding_nonempty<R: Record>(v: R::V)
    requires
        R::valid(v),
    ensures
        R::encoding(v).len() > 0,
{
    let more = seq![0u8];
    R::lemma_round_trip(v, more);
    R::lemma_parse_bounds(R::encoding(v) + more);
}

/// The bytes of a sequence of records split at every record boundary.
pub proof fn lemma_concat_split<R: Record>(records: Seq<R::V>, k: int)
    requires
        0 <= k <= records.len(),
    ensures
        concat_encodings::<R>(records) == concat_encodings::<R>(records.take(k))
            + concat_encodings::<R>(records.skip(k)),
    decreases k,
{
    if k == 0 {
        assert(records.take(0) =~= Seq::<R::V>::empty());
        assert(records.skip(0) =~= records);
        assert(concat_encodings::<R>(records.take(0)) =~= Seq::<u8>::empty());
        assert(Seq::<u8>::empty() + concat_encodings::<R>(records) =~= concat_encodings::<R>(
            records,
        ));
    } else {
        let tail = records.drop_first();
        lemma_concat_split::<R>(tail, k - 1);
        assert(records.take(k).drop_first() =~= tail.take(k - 1));
        assert(records.skip(k) =~= tail.skip(k - 1));
        assert(records.take(k)[0] == records[0]);
        assert(concat_encodings::<R>(records) =~= concat_encodings::<R>(records.take(k))
            + concat_encodings::<R>(records.skip(k)));
    }
}

/// A pipeline that stands before the bytes of valid records, with at least
/// as many records pending, collects them all and goes on behind them.
pub proof fn lemma_run_collects<R: Record>(
    records: Seq<R::V>,
    tail: Seq<u8>,
    p: Progress<R::V>,
    policy: Policy,
)
    requires
        all_valid::<R>(records),
        p.state == PipelineState::Reading,
        p.rest == concat_encodings::<R>(records) + tail,
        p.pending >= records.len(),
    ensures
        run::<R>(p, policy) == run::<R>(
            Progress {
                rest: tail,
                pending: (p.pending - records.len()) as nat,
                records: p.records + records,
                ..p
            },
            policy,
        ),
    decreases records.len(),
{
    if records.len() == 0 {
        assert(p.rest =~= tail);
        assert(p.records + records =~= p.records);
    } else {
        let first = records[0];
        let others = records.drop_first();
        let after = concat_encodings::<R>(others) + tail;
        assert(R::valid(first));
        lemma_encoding_nonempty::<R>(first);
        R::lemma_round_trip(first, after);
        assert(p.rest =~= R::encoding(first) + after);
        assert(p.rest.skip(R::encoding(first).len() as int) =~= after);
        let next = step::<R>(p, policy);
        assert(next == (Progress {
            rest: after,
            pending: (p.pending - 1) as nat,
            records: p.records.push(first),
            ..p
        }));
        assert(all_valid::<R>(others)) by {
            assert forall|i: int| 0 <= i < others.len() implies R::valid(#[trigger] others[i]) by {
                assert(others[i] == records[i + 1]);
            }
        }
        lemma_run_collects::<R>(others, tail, next, policy);
        assert(p.records.push(first) + others =~= p.records + records);
    }
}

/// Header fidelity: a container written with its records is read back with
/// exactly those records, in order, none failed, and the pass is complete.
pub proof fn lemma_container_read_back<R: Record>(records: Seq<R::V>, policy: Policy)
    requires
        records.len() <= u32::MAX,
        all_valid::<R>(records),
    ensures
        open_result::<R>(container_bytes::<R>(records)) == Ok::<Header, DecodeError>(
            header_of::<R>(records.len()),
        ),
        decode_spec::<R>(container_bytes::<R>(records), policy) == Ok::<
            ReportView<R::V>,
            DecodeError,
        >(
            ReportView {
                records,
                failures: Seq::empty(),
                end: PipelineState::Done { truncated: false },
            },
        ),
{
    let header = header_of::<R>(records.len());
    let body = concat_encodings::<R>(records);
    let bytes = container_bytes::<R>(records);
    header.lemma_round_trip(body);
    assert(bytes.skip(HEADER_LEN as int) =~= body);
    let first: Progress<R::V> = start(body, records.len());
    assert(body =~= body + Seq::<u8>::empty());
    lemma_run_collects::<R>(records, Seq::empty(), first, policy);
    assert(first.records + records =~= records);
    let behind = Progress {
        rest: Seq::<u8>::empty(),
        pending: 0,
        records,
        failures: Seq::<Failure>::empty(),
        state: PipelineState::Reading,
    };
    assert(run::<R>(first, policy) == run::<R>(behind, policy));
    assert(run::<R>(step::<R>(behind, policy), policy) == step::<R>(behind, policy));
}

/// A reader of one kind refuses the container of another: the bytes that a
/// writer of `W` records produced do not open as a container of `R` records.
pub proof fn lemma_container_of_other_kind<W: Record, R: Record>(
    records: Seq<W::V>,
    policy: Policy,
)
    requires
        W::kind() != R::kind(),
    ensures
        decode_spec::<R>(container_bytes::<W>(records), policy) == Err::<
            ReportView<R::V>,
            DecodeError,
        >(DecodeError::InvalidMagic),
{
    header_of::<W>(records.len()).lemma_round_trip(concat_encodings::<W>(records));
}

/// Truncation at a record boundary: of a container that declares all of
/// `records` but ends behind the first `k` of them, exactly those `k` are
/// decoded, none fails, and the pass is done and marked truncated.
pub proof fn lemma_cut_between_records<R: Record>(records: Seq<R::V>, k: int, policy: Policy)
    requires
        records.len() <= u32::MAX,
        all_valid::<R>(records),
        0 <= k < records.len(),
    ensures
        decode_spec::<R>(
            container_bytes::<R>(records).take(
                HEADER_LEN + concat_encodings::<R>(records.take(k)).len(),
            ),
            policy,
        ) == Ok::<ReportView<R::V>, DecodeError>(
            ReportView {
                records: records.take(k),
                failures: Seq::empty(),
                end: PipelineState::Done { truncated: true },
            },
        ),
{
    let header = header_of::<R>(records.len());
    let kept = records.take(k);
    let body = concat_encodings::<R>(kept);
    let cut = container_bytes::<R>(records).take(HEADER_LEN + body.len());
    lemma_concat_split::<R>(records, k);
    header.lemma_round_trip(body);
    assert(cut =~= header.encoding() + body);
    assert(cut.skip(HEADER_LEN as int) =~= body);
    let first: Progress<R::V> = start(body, records.len());
    assert(body =~= body + Seq::<u8>::empty());
    lemma_run_collects::<R>(kept, Seq::empty(), first, policy);
    assert(first.records + kept =~= kept);
    let behind = Progress {
        rest: Seq::<u8>::empty(),
        pending: (records.len() - k) as nat,
        records: kept,
        failures: Seq::<Failure>::empty(),
        state: PipelineState::Reading,
    };
    assert(run::<R>(first, policy) == run::<R>(behind, policy));
    assert(run::<R>(step::<R>(behind, policy), policy) == step::<R>(behind, policy));
}

/// Truncation inside a record: of a container that ends `n` bytes into
/// record `k`, exactly the `k` records before it are decoded and the cut
/// record is the one failure, an `UnexpectedEnd` at position `k`. Under the stop policy the
/// pass is aborted on it; under the skip policy the pass is done, and marked
/// truncated where further records were declared.
pub proof fn lemma_cut_inside_record<R: Record>(records: Seq<R::V>, k: int, n: int, policy: Policy)
    requires
        records.len() <= u32::MAX,
        all_valid::<R>(records),
        0 <= k < records.len(),
        0 < n < R::encoding(records[k]).len(),
    ensures
        decode_spec::<R>(
            container_bytes::<R>(records).take(
                HEADER_LEN + concat_encodings::<R>(records.take(k)).len() + n,
            ),
            policy,
        ) == Ok::<ReportView<R::V>, DecodeError>(
            ReportView {
                records: records.take(k),
                failures: seq![Failure { position: k as u32, error: DecodeError::UnexpectedEnd }],
                end: match policy {
                    Policy::StopOnError => PipelineState::Aborted {
                        error: DecodeError::UnexpectedEnd,
                    },
                    Policy::SkipOnError => PipelineState::Done {
                        truncated: k + 1 < records.len(),
                    },
                },
            },
        ),
{
    let header = header_of::<R>(records.len());
    let kept = records.take(k);
    let whole = concat_encodings::<R>(kept);
    let torn = R::encoding(records[k]).take(n);
    let cut = container_bytes::<R>(records).take(HEADER_LEN + whole.len() + n);
    lemma_concat_split::<R>(records, k);
    assert(concat_encodings::<R>(records.skip(k)) =~= R::encoding(records[k])
        + concat_encodings::<R>(records.skip(k).drop_first())) by {
        assert(records.skip(k)[0] == records[k]);
    }
    header.lemma_round_trip(whole + torn);
    assert(cut =~= header.encoding() + (whole + torn));
    assert(cut.skip(HEADER_LEN as int) =~= whole + torn);
    let first: Progress<R::V> = start(whole + torn, records.len());
    lemma_run_collects::<R>(kept, torn, first, policy);
    assert(first.records + kept =~= kept);
    let behind = Progress {
        rest: torn,
        pending: (records.len() - k) as nat,
        records: kept,
        failures: Seq::<Failure>::empty(),
        state: PipelineState::Reading,
    };
    assert(run::<R>(first, policy) == run::<R>(behind, policy));
    R::lemma_cut_short(records[k], n);
    assert(torn.skip(n) =~= Seq::<u8>::empty());
    let failed = step::<R>(behind, policy);
    assert(failed.failures =~= seq![
        Failure { position: k as u32, error: DecodeError::UnexpectedEnd },
    ]);
    assert(run::<R>(behind, policy) == run::<R>(failed, policy));
    assert(run::<R>(step::<R>(failed, policy), policy) == step::<R>(failed, policy));
}

/// A container that ends inside its header is refused with `UnexpectedEnd`.
pub proof fn lemma_cut_inside_header<R: Record>(records: Seq<R::V>, n: int, policy: Policy)
    requires
        0 <= n < HEADER_LEN,
    ensures
        decode_spec::<R>(container_bytes::<R>(records).take(n), policy) == Err::<
            ReportView<R::V>,
            DecodeError,
        >(DecodeError::UnexpectedEnd),
{
    header_of::<R>(records.len()).lemma_round_trip(concat_encodings::<R>(records));
}

/// The type bytes of a sequence of mixed records, in order.
pub open spec fn type_bytes(records: Seq<MixedRecordView>) -> Seq<u8> {
    records.map_values(|r: MixedRecordView| r.type_byte())
}

/// Discrimination: a stream of mixed records is read back with the type
/// byte of every record as it was written, in the same order.
pub proof fn lemma_mixed_type_bytes_read_back(records: Seq<MixedRecordView>, policy: Policy)
    requires
        records.len() <= u32::MAX,
        all_valid::<MixedRecord>(records),
    ensures
        decode_spec::<MixedRecord>(container_bytes::<MixedRecord>(records), policy) matches Ok(
            report,
        ) && type_bytes(report.records) == type_bytes(records),
{
    lemma_container_read_back::<MixedRecord>(records, policy);
}

} // verus!
