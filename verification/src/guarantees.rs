//! What holds of runs taken together: a run that follows another finds
//! nothing changed and goes on where the first one stopped.
//!
//! The backend is taken at its word here: the history it returns is in
//! ascending order of name, and it records a file exactly when it has applied
//! it.

use crate::catalog::sorted_by_name;
use crate::catalog::FileView;
use crate::error::MigrationError;
use crate::order::lemma_bytes_before_asymmetric;
use crate::order::lemma_bytes_before_irreflexive;
use crate::order::name_before;
use crate::reconcile::drifted_at;
use crate::reconcile::first_drift_at;
use crate::reconcile::has_drift;
use crate::reconcile::pending;
use crate::reconcile::reports_first_drift;
use crate::reconcile::run_outcome;
use crate::reconcile::AppliedRecord;
use vstd::prelude::*;
use vstd::utf8::encode_utf8;

verus! {

/// Every row's name sorts strictly before the names of the rows after it.
pub open spec fn sorted_rows(rows: Seq<AppliedRecord>) -> bool {
    forall|i: int, j: int|
        0 <= i < j < rows.len() ==> name_before(#[trigger] rows[i].name, #[trigger] rows[j].name)
}

/// The row under which a file is recorded when it is applied.
pub open spec fn row_of(file: FileView) -> AppliedRecord {
    AppliedRecord { name: file.name, checksum: file.checksum() }
}

/// The row of each file.
pub open spec fn rows_of(files: Seq<FileView>) -> Seq<AppliedRecord> {
    files.map_values(|file: FileView| row_of(file))
}

/// `after` is the history of a backend that held `before` and has recorded
/// `added` since: in name order, the old rows and one row for each added file,
/// and no others.
pub open spec fn history_after(
    before: Seq<AppliedRecord>,
    added: Seq<FileView>,
    after: Seq<AppliedRecord>,
) -> bool {
    &&& sorted_rows(after)
    &&& after.len() == before.len() + added.len()
    &&& forall|row: AppliedRecord| #[trigger]
        after.contains(row) <==> before.contains(row) || rows_of(added).contains(row)
}

/// `row` stands in `rows` before position `bound`.
pub open spec fn occurs_within(rows: Seq<AppliedRecord>, bound: int, row: AppliedRecord) -> bool {
    exists|q: int| 0 <= q < bound && q < rows.len() && #[trigger] rows[q] == row
}

proof fn lemma_names_apart(a: Seq<char>, b: Seq<char>)
    requires
        name_before(a, b),
    ensures
        a != b,
        !name_before(b, a),
{
    lemma_bytes_before_irreflexive(encode_utf8(a));
    lemma_bytes_before_asymmetric(encode_utf8(a), encode_utf8(b));
}

/// In a sorted history a name stands at one position only, and a name that
/// sorts before another stands before it.
proof fn lemma_sorted_positions(rows: Seq<AppliedRecord>, p: int, q: int)
    requires
        sorted_rows(rows),
        0 <= p < rows.len(),
        0 <= q < rows.len(),
    ensures
        rows[p].name == rows[q].name ==> p == q,
        name_before(rows[p].name, rows[q].name) ==> p < q,
{
    if p < q {
        lemma_names_apart(rows[p].name, rows[q].name);
    } else if q < p {
        lemma_names_apart(rows[q].name, rows[p].name);
    } else {
        lemma_bytes_before_irreflexive(encode_utf8(rows[p].name));
    }
}

proof fn lemma_sorted_file_positions(files: Seq<FileView>, p: int, q: int)
    requires
        sorted_by_name(files),
        0 <= p < files.len(),
        0 <= q < files.len(),
    ensures
        files[p].name == files[q].name ==> p == q,
        name_before(files[p].name, files[q].name) ==> p < q,
{
    if p < q {
        lemma_names_apart(files[p].name, files[q].name);
    } else if q < p {
        lemma_names_apart(files[q].name, files[p].name);
    } else {
        lemma_bytes_before_irreflexive(encode_utf8(files[p].name));
    }
}

/// Where each of the first `a` rows of one sorted history stands among the
/// first `b` rows of another, `a` is at most `b`.
proof fn lemma_embedding(s: Seq<AppliedRecord>, a: int, t: Seq<AppliedRecord>, b: int)
    requires
        sorted_rows(s),
        sorted_rows(t),
        0 <= a <= s.len(),
        0 <= b <= t.len(),
        forall|p: int| 0 <= p < a ==> occurs_within(t, b, #[trigger] s[p]),
    ensures
        a <= b,
    decreases a,
{
    if a > 0 {
        let last = s[a - 1];
        assert(occurs_within(t, b, last));
        let q = choose|q: int| 0 <= q < b && q < t.len() && #[trigger] t[q] == last;
        assert forall|p: int| 0 <= p < a - 1 implies occurs_within(t, q, #[trigger] s[p]) by {
            assert(occurs_within(t, b, s[p]));
            let r = choose|r: int| 0 <= r < b && r < t.len() && #[trigger] t[r] == s[p];
            assert(name_before(s[p].name, s[a - 1].name));
            lemma_sorted_positions(t, r, q);
        }
        lemma_embedding(s, a - 1, t, q);
    }
}

/// A run that stops after `done` of its pending files, each of them recorded
/// by the backend and nothing else, leaves a history without a changed file,
/// and the files it did not reach are what is pending then.
pub proof fn lemma_next_run_goes_on(
    before: Seq<AppliedRecord>,
    files: Seq<FileView>,
    done: int,
    after: Seq<AppliedRecord>,
)
    requires
        sorted_by_name(files),
        sorted_rows(before),
        !has_drift(before, files),
        0 <= done <= pending(before.len(), files).len(),
        history_after(before, pending(before.len(), files).take(done), after),
    ensures
        !has_drift(after, files),
        pending(after.len(), files) == pending(before.len(), files).skip(done),
{
    let m = before.len() as int;
    let n = files.len() as int;
    let todo = pending(before.len(), files);
    let added = todo.take(done);
    assert(pending(after.len(), files) =~= todo.skip(done));
    assert forall|i: int| !drifted_at(after, files, i) by {
        if 0 <= i < after.len() && i < n && after[i].name == files[i].name {
            assert(after.contains(after[i]));
            if rows_of(added).contains(after[i]) {
                let t = choose|t: int| 0 <= t < rows_of(added).len() && rows_of(added)[t] == after[i];
                assert(added[t] == files[m + t]);
                lemma_sorted_file_positions(files, m + t, i);
            } else {
                assert(before.contains(after[i]));
                let j = choose|j: int| 0 <= j < before.len() && before[j] == after[i];
                if i >= m {
                    assert(added[i - m] == files[i]);
                    assert(rows_of(added)[i - m] == row_of(files[i]));
                    assert(rows_of(added).contains(row_of(files[i])));
                    assert(after.contains(row_of(files[i])));
                    let p = choose|p: int| 0 <= p < after.len() && after[p] == row_of(files[i]);
                    lemma_sorted_positions(after, p, i);
                } else {
                    assert forall|p: int| 0 <= p < j + 1 implies occurs_within(
                        after,
                        i + 1,
                        #[trigger] before[p],
                    ) by {
                        if p == j {
                            assert(after[i] == before[p]);
                        } else {
                            assert(before.contains(before[p]));
                            assert(after.contains(before[p]));
                            let q = choose|q: int| 0 <= q < after.len() && after[q] == before[p];
                            assert(name_before(before[p].name, before[j].name));
                            lemma_sorted_positions(after, q, i);
                        }
                    }
                    lemma_embedding(before, j + 1, after, i + 1);
                    assert forall|p: int| 0 <= p < i implies occurs_within(
                        before,
                        j,
                        #[trigger] after[p],
                    ) by {
                        assert(after.contains(after[p]));
                        assert(name_before(after[p].name, after[i].name));
                        if rows_of(added).contains(after[p]) {
                            let t = choose|t: int|
                                0 <= t < rows_of(added).len() && rows_of(added)[t] == after[p];
                            assert(added[t] == files[m + t]);
                            lemma_sorted_file_positions(files, m + t, i);
                        } else {
                            assert(before.contains(after[p]));
                            let q = choose|q: int| 0 <= q < before.len() && before[q] == after[p];
                            lemma_sorted_positions(before, q, j);
                        }
                    }
                    lemma_embedding(after, i, before, j);
                    assert(i == j);
                    assert(!drifted_at(before, files, i));
                }
            }
        }
    }
}

/// Idempotence: after a run that succeeded, a second run over the same
/// catalog succeeds and applies nothing.
pub proof fn lemma_second_run_applies_nothing(
    before: Seq<AppliedRecord>,
    files: Seq<FileView>,
    after: Seq<AppliedRecord>,
    reported: Seq<Seq<char>>,
    result: Result<(), MigrationError>,
)
    requires
        sorted_by_name(files),
        sorted_rows(before),
        !has_drift(before, files),
        history_after(before, pending(before.len(), files), after),
        run_outcome(after, files, reported, result),
    ensures
        result is Ok,
        reported.len() == 0,
{
    let todo = pending(before.len(), files);
    assert(todo.take(todo.len() as int) =~= todo);
    lemma_next_run_goes_on(before, files, todo.len() as int, after);
}

/// Atomicity seen from the engine: a file that the backend refused, and so
/// did not record, is the first that the next run takes up.
pub proof fn lemma_refused_file_is_tried_again(
    before: Seq<AppliedRecord>,
    files: Seq<FileView>,
    done: int,
    after: Seq<AppliedRecord>,
)
    requires
        sorted_by_name(files),
        sorted_rows(before),
        !has_drift(before, files),
        0 <= done < pending(before.len(), files).len(),
        history_after(before, pending(before.len(), files).take(done), after),
    ensures
        !has_drift(after, files),
        pending(after.len(), files).len() > 0,
        pending(after.len(), files)[0] == pending(before.len(), files)[done],
{
    lemma_next_run_goes_on(before, files, done, after);
}

/// Drift detection: where the only changed file stands at position `i`, every
/// run fails before it applies anything, with a checksum mismatch that names
/// the file, the digest on record and the digest of the file as it is now.
pub proof fn lemma_changed_file_is_reported(
    applied: Seq<AppliedRecord>,
    files: Seq<FileView>,
    i: int,
    reported: Seq<Seq<char>>,
    result: Result<(), MigrationError>,
)
    requires
        first_drift_at(applied, files, i),
        run_outcome(applied, files, reported, result),
    ensures
        reported.len() == 0,
        result matches Err(MigrationError::ChecksumMismatch(name, expected, found)) && name@
            == files[i].name && expected@ == applied[i].checksum && found@ == files[i].checksum(),
{
    assert(drifted_at(applied, files, i));
    let error = result->Err_0;
    assert(reports_first_drift(error, applied, files));
    let k = choose|k: int|
        {
            &&& #[trigger] first_drift_at(applied, files, k)
            &&& error matches MigrationError::ChecksumMismatch(name, expected, found)
            &&& name@ == files[k].name
            &&& expected@ == applied[k].checksum
            &&& found@ == files[k].checksum()
        };
    assert(k == i);
}

/// Ordering: what is pending comes in ascending order of name, so a run
/// applies its files in that order.
pub proof fn lemma_pending_in_name_order(applied_len: nat, files: Seq<FileView>)
    requires
        sorted_by_name(files),
    ensures
        sorted_by_name(pending(applied_len, files)),
{
    let todo = pending(applied_len, files);
    assert forall|i: int, j: int| 0 <= i < j < todo.len() implies name_before(
        #[trigger] todo[i].name,
        #[trigger] todo[j].name,
    ) by {
        assert(todo[i] == files[applied_len + i]);
        assert(todo[j] == files[applied_len + j]);
    }
}

} // verus!
