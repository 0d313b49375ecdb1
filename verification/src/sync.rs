//! The batch sync plan and its report.
//!
//! The scan results are cut into consecutive chunks of a caller-chosen
//! size; within each chunk only the results carrying a vehicle hint
//! become records, and a chunk left with no records is dropped, so no
//! empty payload is ever dispatched. Dispatching is I/O and happens
//! outside the library; the caller hands back one outcome per chunk and
//! the report aggregates them: a failed chunk counts every one of its
//! records as failed and contributes one error message.

use vstd::prelude::*;
use crate::scan::{ScanResult, ResultModel, result_views};

verus! {

/// One record of a sync payload, built from a hinted scan result.
pub struct VehicleRecord {
    pub year: Option<String>,
    pub make: Option<String>,
    pub model: Option<String>,
    pub vin: Option<String>,
    pub description: String,
}

/// The mathematical shape of a payload record.
#[verifier::ext_equal]
pub struct RecordModel {
    pub year: Option<Seq<char>>,
    pub make: Option<Seq<char>>,
    pub model: Option<Seq<char>>,
    pub vin: Option<Seq<char>>,
    pub description: Seq<char>,
}

impl View for VehicleRecord {
    type V = RecordModel;

    open spec fn view(&self) -> RecordModel {
        RecordModel {
            year: match self.year {
                Some(s) => Some(s@),
                None => None,
            },
            make: match self.make {
                Some(s) => Some(s@),
                None => None,
            },
            model: match self.model {
                Some(s) => Some(s@),
                None => None,
            },
            vin: match self.vin {
                Some(s) => Some(s@),
                None => None,
            },
            description: self.description@,
        }
    }
}

/// A scan result that carries a hint.
pub open spec fn hinted(r: ResultModel) -> bool {
    r.potential_vehicle is Some
}

/// The payload record of a hinted scan result: the hint's four fields,
/// and a description naming the source file.
pub open spec fn spec_record_of(r: ResultModel) -> RecordModel {
    let h = r.potential_vehicle.unwrap();
    RecordModel {
        year: h.year,
        make: h.make,
        model: h.model,
        vin: h.vin,
        description: "Imported from "@ + r.filename,
    }
}

/// The records of one chunk of results: the hinted ones, in order.
pub open spec fn spec_chunk_records(rs: Seq<ResultModel>) -> Seq<RecordModel>
    decreases rs.len(),
{
    if rs.len() == 0 {
        Seq::empty()
    } else {
        let init = spec_chunk_records(rs.drop_last());
        if hinted(rs.last()) {
            init.push(spec_record_of(rs.last()))
        } else {
            init
        }
    }
}

/// The whole plan: consecutive chunks of `size` results (the last chunk
/// may be smaller), each reduced to its records, chunks left empty
/// dropped.
pub open spec fn spec_plan(rs: Seq<ResultModel>, size: int) -> Seq<Seq<RecordModel>>
    decreases rs.len(),
    when 1 <= size
{
    if rs.len() == 0 {
        Seq::empty()
    } else {
        let m = if size < rs.len() {
            size
        } else {
            rs.len() as int
        };
        let recs = spec_chunk_records(rs.take(m));
        let rest = spec_plan(rs.skip(m), size);
        if recs.len() > 0 {
            seq![recs] + rest
        } else {
            rest
        }
    }
}

/// The views of a list of records.
pub open spec fn record_views(recs: Seq<VehicleRecord>) -> Seq<RecordModel> {
    Seq::new(recs.len(), |i: int| recs[i]@)
}

/// The views of a list of chunks.
pub open spec fn chunk_views(chunks: Seq<Vec<VehicleRecord>>) -> Seq<Seq<RecordModel>> {
    Seq::new(chunks.len(), |i: int| record_views(chunks[i]@))
}

/// The payload record of one hinted scan result.
fn record_of(f: &ScanResult) -> (r: VehicleRecord)
    requires
        hinted(f@),
    ensures
        r@ == spec_record_of(f@),
{
    let h = f.potential_vehicle.as_ref().unwrap();
    let year = match &h.year {
        Some(s) => Some(s.clone()),
        None => None,
    };
    let make = match &h.make {
        Some(s) => Some(s.clone()),
        None => None,
    };
    let model = match &h.model {
        Some(s) => Some(s.clone()),
        None => None,
    };
    let vin = match &h.vin {
        Some(s) => Some(s.clone()),
        None => None,
    };
    let description = String::from_str("Imported from ").concat(f.filename.as_str());
    let r = VehicleRecord { year, make, model, vin, description };
    assert(r@ =~= spec_record_of(f@));
    r
}

/// Cut the results into consecutive chunks of `batch_size`, keep the
/// hinted ones of each chunk as records, and drop chunks left empty.
pub fn plan_sync_batches(files: &Vec<ScanResult>, batch_size: usize) -> (chunks: Vec<
    Vec<VehicleRecord>,
>)
    requires
        batch_size >= 1,
    ensures
        chunk_views(chunks@) == spec_plan(result_views(files@), batch_size as int),
{
    let n = files.len();
    let ghost all = result_views(files@);
    let mut chunks: Vec<Vec<VehicleRecord>> = Vec::new();
    let mut i: usize = 0;
    proof {
        assert(all.skip(0) =~= all);
        assert(chunk_views(chunks@) + spec_plan(all, batch_size as int) =~= spec_plan(
            all,
            batch_size as int,
        ));
    }
    while i < n
        invariant
            batch_size >= 1,
            i <= n,
            n == files@.len(),
            all == result_views(files@),
            spec_plan(all, batch_size as int) == chunk_views(chunks@) + spec_plan(
                all.skip(i as int),
                batch_size as int,
            ),
        decreases n - i,
    {
        let step: usize = if n - i > batch_size {
            batch_size
        } else {
            n - i
        };
        let end = i + step;
        let mut recs: Vec<VehicleRecord> = Vec::new();
        let mut j: usize = i;
        while j < end
            invariant
                i <= j <= end <= n,
                n == files@.len(),
                all == result_views(files@),
                record_views(recs@) == spec_chunk_records(all.subrange(i as int, j as int)),
            decreases end - j,
        {
            let f = &files[j];
            if f.potential_vehicle.is_some() {
                recs.push(record_of(f));
            }
            proof {
                assert(all.subrange(i as int, j + 1).drop_last() =~= all.subrange(
                    i as int,
                    j as int,
                ));
                assert(all.subrange(i as int, j + 1).last() == files@[j as int]@);
                assert(record_views(recs@) =~= spec_chunk_records(all.subrange(i as int, j + 1)));
            }
            j = j + 1;
        }
        proof {
            let m = step as int;
            assert(all.skip(i as int).take(m) =~= all.subrange(i as int, i + m));
            assert(all.skip(i as int).skip(m) =~= all.skip(i + m));
        }
        if recs.len() > 0 {
            chunks.push(recs);
            proof {
                assert(chunk_views(chunks@) =~= chunk_views(chunks@.drop_last()).push(
                    record_views(chunks@.last()@),
                ));
                assert(chunk_views(chunks@.drop_last()).push(record_views(chunks@.last()@))
                    =~= chunk_views(chunks@.drop_last()) + seq![record_views(chunks@.last()@)]);
                assert(spec_plan(all, batch_size as int) == chunk_views(chunks@) + spec_plan(
                    all.skip(i + step),
                    batch_size as int,
                ));
            }
        }
        i = end;
    }
    proof {
        assert(all.skip(n as int).len() == 0);
        assert(chunk_views(chunks@) + spec_plan(all.skip(n as int), batch_size as int)
            =~= chunk_views(chunks@));
    }
    chunks
}

/// The aggregate outcome of a sync run.
pub struct SyncBatchReport {
    pub synced: usize,
    pub failed: usize,
    pub errors: Vec<String>,
}

/// The views of the outcome messages.
pub open spec fn outcome_views(outcomes: Seq<Option<String>>) -> Seq<Option<Seq<char>>> {
    Seq::new(
        outcomes.len(),
        |i: int|
            match outcomes[i] {
                Some(s) => Some(s@),
                None => None,
            },
    )
}

/// Total number of records in the first `n` chunks.
pub open spec fn spec_total(chunks: Seq<Seq<RecordModel>>, n: int) -> int
    decreases n,
{
    if n <= 0 {
        0
    } else {
        spec_total(chunks, n - 1) + chunks[n - 1].len()
    }
}

/// Records of the first `n` chunks whose dispatch succeeded.
pub open spec fn spec_synced(
    chunks: Seq<Seq<RecordModel>>,
    outcomes: Seq<Option<Seq<char>>>,
    n: int,
) -> int
    decreases n,
{
    if n <= 0 {
        0
    } else {
        spec_synced(chunks, outcomes, n - 1) + if outcomes[n - 1] is None {
            chunks[n - 1].len() as int
        } else {
            0
        }
    }
}

/// Records of the first `n` chunks whose dispatch failed.
pub open spec fn spec_failed(
    chunks: Seq<Seq<RecordModel>>,
    outcomes: Seq<Option<Seq<char>>>,
    n: int,
) -> int
    decreases n,
{
    if n <= 0 {
        0
    } else {
        spec_failed(chunks, outcomes, n - 1) + if outcomes[n - 1] is Some {
            chunks[n - 1].len() as int
        } else {
            0
        }
    }
}

/// The error messages of the first `n` outcomes, in order.
pub open spec fn spec_errors(outcomes: Seq<Option<Seq<char>>>, n: int) -> Seq<Seq<char>>
    decreases n,
{
    if n <= 0 {
        Seq::empty()
    } else {
        let init = spec_errors(outcomes, n - 1);
        match outcomes[n - 1] {
            Some(m) => init.push(m),
            None => init,
        }
    }
}

/// The views of a list of error strings.
pub open spec fn string_views(errors: Seq<String>) -> Seq<Seq<char>> {
    Seq::new(errors.len(), |i: int| errors[i]@)
}

/// Counting never shrinks as chunks are added.
proof fn lemma_total_mono(chunks: Seq<Seq<RecordModel>>, i: int, n: int)
    requires
        i <= n,
    ensures
        spec_total(chunks, i) <= spec_total(chunks, n),
    decreases n - i,
{
    if i < n {
        lemma_total_mono(chunks, i, n - 1);
    }
}

/// Success and failure split the records of every dispatched chunk.
proof fn lemma_counts_split(
    chunks: Seq<Seq<RecordModel>>,
    outcomes: Seq<Option<Seq<char>>>,
    n: int,
)
    ensures
        spec_synced(chunks, outcomes, n) + spec_failed(chunks, outcomes, n) == spec_total(
            chunks,
            n,
        ),
    decreases n,
{
    if n > 0 {
        lemma_counts_split(chunks, outcomes, n - 1);
    }
}

/// Aggregate per-chunk outcomes into the report: a successful chunk adds
/// its record count to `synced`; a failed one adds its count to `failed`
/// and appends its message; no outcome ends the run early.
pub fn sync_report(chunks: &Vec<Vec<VehicleRecord>>, outcomes: &Vec<Option<String>>) -> (report:
    SyncBatchReport)
    requires
        outcomes@.len() == chunks@.len(),
        spec_total(chunk_views(chunks@), chunks@.len() as int) <= usize::MAX,
    ensures
        report.synced == spec_synced(
            chunk_views(chunks@),
            outcome_views(outcomes@),
            chunks@.len() as int,
        ),
        report.failed == spec_failed(
            chunk_views(chunks@),
            outcome_views(outcomes@),
            chunks@.len() as int,
        ),
        string_views(report.errors@) == spec_errors(
            outcome_views(outcomes@),
            outcomes@.len() as int,
        ),
        report.synced + report.failed == spec_total(chunk_views(chunks@), chunks@.len() as int),
{
    let n = chunks.len();
    let ghost cviews = chunk_views(chunks@);
    let ghost oviews = outcome_views(outcomes@);
    let mut synced: usize = 0;
    let mut failed: usize = 0;
    let mut errors: Vec<String> = Vec::new();
    let mut i: usize = 0;
    assert(string_views(errors@) =~= spec_errors(oviews, 0));
    while i < n
        invariant
            i <= n,
            n == chunks@.len(),
            n == outcomes@.len(),
            cviews == chunk_views(chunks@),
            oviews == outcome_views(outcomes@),
            spec_total(cviews, n as int) <= usize::MAX,
            synced == spec_synced(cviews, oviews, i as int),
            failed == spec_failed(cviews, oviews, i as int),
            synced + failed == spec_total(cviews, i as int),
            string_views(errors@) == spec_errors(oviews, i as int),
        decreases n - i,
    {
        let count = chunks[i].len();
        proof {
            lemma_counts_split(cviews, oviews, i as int);
            lemma_total_mono(cviews, i + 1, n as int);
            assert(spec_total(cviews, i + 1) == spec_total(cviews, i as int) + cviews[i as int].len());
            assert(cviews[i as int].len() == count);
        }
        match &outcomes[i] {
            Option::None => {
                synced = synced + count;
            },
            Option::Some(msg) => {
                failed = failed + count;
                errors.push(msg.clone());
                assert(string_views(errors@) =~= spec_errors(oviews, i + 1));
            },
        }
        i = i + 1;
    }
    SyncBatchReport { synced, failed, errors }
}

/// The positions of the entries that carry a value, in order.
pub open spec fn spec_some_positions<T>(v: Seq<Option<T>>) -> Seq<int>
    decreases v.len(),
{
    if v.len() == 0 {
        Seq::empty()
    } else {
        let init = spec_some_positions(v.drop_last());
        if v.last() is Some {
            init.push(v.len() - 1)
        } else {
            init
        }
    }
}

/// Which items of a per-item upload would be enqueued: exactly those that
/// carry a VIN, in their input order.
pub fn queue_indices(vins: &Vec<Option<String>>) -> (idx: Vec<usize>)
    ensures
        Seq::new(idx@.len(), |i: int| idx@[i] as int) == spec_some_positions(vins@),
{
    let mut idx: Vec<usize> = Vec::new();
    let mut i: usize = 0;
    assert(Seq::new(idx@.len(), |i: int| idx@[i] as int) =~= spec_some_positions(vins@.take(0)));
    while i < vins.len()
        invariant
            i <= vins@.len(),
            Seq::new(idx@.len(), |j: int| idx@[j] as int) == spec_some_positions(
                vins@.take(i as int),
            ),
        decreases vins@.len() - i,
    {
        if vins[i].is_some() {
            idx.push(i);
        }
        proof {
            assert(vins@.take(i + 1).drop_last() =~= vins@.take(i as int));
            assert(vins@.take(i + 1).last() == vins@[i as int]);
            assert(Seq::new(idx@.len(), |j: int| idx@[j] as int) =~= spec_some_positions(
                vins@.take(i + 1),
            ));
        }
        i = i + 1;
    }
    assert(vins@.take(vins@.len() as int) =~= vins@);
    idx
}

/// How many outcomes of a per-item upload succeeded.
pub open spec fn spec_count_true(s: Seq<bool>) -> int
    decreases s.len(),
{
    if s.len() == 0 {
        0
    } else {
        spec_count_true(s.drop_last()) + if s.last() {
            1int
        } else {
            0int
        }
    }
}

/// Count the successful outcomes of a per-item upload.
pub fn count_successes(outcomes: &Vec<bool>) -> (n: usize)
    ensures
        n == spec_count_true(outcomes@),
{
    let mut n: usize = 0;
    let mut i: usize = 0;
    while i < outcomes.len()
        invariant
            i <= outcomes@.len(),
            n == spec_count_true(outcomes@.take(i as int)),
            n <= i,
        decreases outcomes@.len() - i,
    {
        proof {
            assert(outcomes@.take(i + 1).drop_last() =~= outcomes@.take(i as int));
            assert(outcomes@.take(i + 1).last() == outcomes@[i as int]);
        }
        if outcomes[i] {
            n = n + 1;
        }
        i = i + 1;
    }
    assert(outcomes@.take(outcomes@.len() as int) =~= outcomes@);
    n
}

/// A record of some hinted result of the list.
pub open spec fn record_from_hinted(rs: Seq<ResultModel>, r: RecordModel) -> bool {
    exists|k: int| 0 <= k < rs.len() && hinted(#[trigger] rs[k]) && r == spec_record_of(rs[k])
}

/// Every record of a chunk comes from a hinted result of that chunk.
proof fn lemma_chunk_records_hinted(rs: Seq<ResultModel>)
    ensures
        forall|j: int|
            0 <= j < spec_chunk_records(rs).len() ==> record_from_hinted(
                rs,
                #[trigger] spec_chunk_records(rs)[j],
            ),
    decreases rs.len(),
{
    if rs.len() > 0 {
        lemma_chunk_records_hinted(rs.drop_last());
        let prev = spec_chunk_records(rs.drop_last());
        assert forall|j: int| 0 <= j < spec_chunk_records(rs).len() implies record_from_hinted(
            rs,
            #[trigger] spec_chunk_records(rs)[j],
        ) by {
            if j < prev.len() {
                assert(record_from_hinted(rs.drop_last(), prev[j]));
                let k = choose|k: int|
                    0 <= k < rs.drop_last().len() && hinted(#[trigger] rs.drop_last()[k]) && prev[j]
                        == spec_record_of(rs.drop_last()[k]);
                assert(rs.drop_last()[k] == rs[k]);
                assert(hinted(rs[k]) && spec_chunk_records(rs)[j] == spec_record_of(rs[k]));
            } else {
                let k = rs.len() - 1;
                assert(hinted(rs[k]) && spec_chunk_records(rs)[j] == spec_record_of(rs[k]));
            }
        }
    }
}

/// No payload ever carries a record of an unhinted result, and no chunk of
/// the plan is empty: a chunk whose results all lack a hint is dropped
/// before dispatch, and every record of every dispatched chunk is the
/// record of some hinted result.
pub proof fn lemma_payload_only_hinted(rs: Seq<ResultModel>, size: int)
    requires
        1 <= size,
    ensures
        forall|i: int| 0 <= i < spec_plan(rs, size).len() ==> #[trigger] spec_plan(rs, size)[i].len() > 0,
        forall|i: int, j: int|
            0 <= i < spec_plan(rs, size).len() && 0 <= j < spec_plan(rs, size)[i].len()
                ==> record_from_hinted(rs, #[trigger] spec_plan(rs, size)[i][j]),
    decreases rs.len(),
{
    if rs.len() > 0 {
        let m = if size < rs.len() {
            size
        } else {
            rs.len() as int
        };
        let head = rs.take(m);
        let tail = rs.skip(m);
        let recs = spec_chunk_records(head);
        lemma_payload_only_hinted(tail, size);
        lemma_chunk_records_hinted(head);
        let plan = spec_plan(rs, size);
        assert forall|i: int, j: int|
            0 <= i < plan.len() && 0 <= j < plan[i].len() implies record_from_hinted(
            rs,
            #[trigger] plan[i][j],
        ) by {
            let off = if recs.len() > 0 {
                1int
            } else {
                0int
            };
            if recs.len() > 0 && i == 0 {
                assert(plan[0] == recs);
                assert(record_from_hinted(head, recs[j]));
                let k = choose|k: int|
                    0 <= k < head.len() && hinted(#[trigger] head[k]) && recs[j] == spec_record_of(
                        head[k],
                    );
                assert(head[k] == rs[k]);
                assert(hinted(rs[k]) && plan[i][j] == spec_record_of(rs[k]));
            } else {
                assert(plan[i] == spec_plan(tail, size)[i - off]);
                assert(record_from_hinted(tail, spec_plan(tail, size)[i - off][j]));
                let k = choose|k: int|
                    0 <= k < tail.len() && hinted(#[trigger] tail[k]) && spec_plan(tail, size)[i
                        - off][j] == spec_record_of(tail[k]);
                assert(tail[k] == rs[m + k]);
                assert(hinted(rs[m + k]) && plan[i][j] == spec_record_of(rs[m + k]));
            }
        }
    }
}

} // verus!
