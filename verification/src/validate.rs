//! Dataset hygiene diagnostics for frame records.

use vstd::prelude::*;

use crate::text::{decimal, push_decimal, push_str};

verus! {

/// One problem found in a frame record.
#[derive(Clone, Debug, PartialEq, Eq)]
pub struct ValidationDiagnostic {
    pub frame_id: Option<u64>,
    pub message: String,
}

impl View for ValidationDiagnostic {
    type V = (Option<u64>, Seq<char>);

    open spec fn view(&self) -> (Option<u64>, Seq<char>) {
        (self.frame_id, self.message@)
    }
}

/// The outcome of the per-object checks: whether the box has positive width and
/// height, and whether the confidence lies in [0, 1].
#[derive(Clone, Copy, Debug, PartialEq, Eq, Structural)]
pub struct ObjectChecks {
    pub bbox_size_positive: bool,
    pub confidence_in_unit_range: bool,
}

/// What validation reads of a frame record: its id, whether it names a session or a
/// scene for grouped splits, and the checks of each of its objects in order.
#[derive(Clone, Debug)]
pub struct RecordChecks {
    pub frame_id: u64,
    pub has_split_group: bool,
    pub objects: Vec<ObjectChecks>,
}

/// Message for a record without session or scene.
pub open spec fn missing_group_message() -> Seq<char> {
    "frame should include session_id or scene_id for grouped splits"@
}

/// Message for an object whose box has no area.
pub open spec fn bbox_message(index: nat) -> Seq<char> {
    "object "@ + decimal(index) + " has non-positive bbox size"@
}

/// Message for an object whose confidence is out of range.
pub open spec fn confidence_message(index: nat) -> Seq<char> {
    "object "@ + decimal(index) + " confidence is outside [0, 1]"@
}

/// Diagnostics of object `index` of frame `frame_id`: box first, then confidence.
pub open spec fn object_diagnostics(frame_id: u64, index: nat, checks: ObjectChecks) -> Seq<
    (Option<u64>, Seq<char>),
> {
    (if checks.bbox_size_positive {
        Seq::empty()
    } else {
        seq![(Some(frame_id), bbox_message(index))]
    }) + (if checks.confidence_in_unit_range {
        Seq::empty()
    } else {
        seq![(Some(frame_id), confidence_message(index))]
    })
}

/// Diagnostics of the objects of one frame, in object order.
pub open spec fn objects_diagnostics(frame_id: u64, objects: Seq<ObjectChecks>) -> Seq<
    (Option<u64>, Seq<char>),
>
    decreases objects.len(),
{
    if objects.len() == 0 {
        Seq::empty()
    } else {
        objects_diagnostics(frame_id, objects.drop_last()) + object_diagnostics(
            frame_id,
            (objects.len() - 1) as nat,
            objects.last(),
        )
    }
}

/// Diagnostics of one frame: the missing split group first, then its objects.
pub open spec fn record_diagnostics(record: RecordChecks) -> Seq<(Option<u64>, Seq<char>)> {
    (if record.has_split_group {
        Seq::empty()
    } else {
        seq![(Some(record.frame_id), missing_group_message())]
    }) + objects_diagnostics(record.frame_id, record.objects@)
}

/// Diagnostics of all frames, in frame order.
pub open spec fn records_diagnostics(records: Seq<RecordChecks>) -> Seq<(Option<u64>, Seq<char>)>
    decreases records.len(),
{
    if records.len() == 0 {
        Seq::empty()
    } else {
        records_diagnostics(records.drop_last()) + record_diagnostics(records.last())
    }
}

/// The views of a list of diagnostics.
pub open spec fn diagnostics_view(diagnostics: Seq<ValidationDiagnostic>) -> Seq<
    (Option<u64>, Seq<char>),
> {
    diagnostics.map_values(|d: ValidationDiagnostic| d@)
}

fn object_message(index: usize, suffix: &str) -> (message: String)
    ensures
        message@ == "object "@ + decimal(index as nat) + suffix@,
{
    let mut message = String::new();
    push_str(&mut message, "object ");
    push_decimal(&mut message, index as u128);
    push_str(&mut message, suffix);
    message
}

proof fn lemma_push_view(out: Seq<ValidationDiagnostic>, d: ValidationDiagnostic)
    ensures
        diagnostics_view(out.push(d)) == diagnostics_view(out).push(d@),
{
    assert(diagnostics_view(out.push(d)) =~= diagnostics_view(out).push(d@));
}

/// Lists the hygiene problems of the records: a frame without session or scene id,
/// and objects with a non-positive box size or a confidence outside [0, 1].
pub fn validate_records(records: &[RecordChecks]) -> (diagnostics: Vec<ValidationDiagnostic>)
    ensures
        diagnostics_view(diagnostics@) == records_diagnostics(records@),
{
    let mut diagnostics: Vec<ValidationDiagnostic> = Vec::new();
    let mut r: usize = 0;
    while r < records.len()
        invariant
            r <= records@.len(),
            diagnostics_view(diagnostics@) == records_diagnostics(records@.subrange(0, r as int)),
        decreases records@.len() - r,
    {
        let record = &records[r];
        let ghost before = diagnostics_view(diagnostics@);
        assert(records@.subrange(0, r + 1).drop_last() =~= records@.subrange(0, r as int));
        if !record.has_split_group {
            let mut message = String::new();
            push_str(&mut message, "frame should include session_id or scene_id for grouped splits");
            let d = ValidationDiagnostic { frame_id: Some(record.frame_id), message };
            proof {
                lemma_push_view(diagnostics@, d);
            }
            diagnostics.push(d);
        }
        assert(diagnostics_view(diagnostics@) =~= before + (if record.has_split_group {
            Seq::empty()
        } else {
            seq![(Some(record.frame_id), missing_group_message())]
        }));
        let ghost head = diagnostics_view(diagnostics@);
        let mut k: usize = 0;
        while k < record.objects.len()
            invariant
                k <= record.objects@.len(),
                diagnostics_view(diagnostics@) == head + objects_diagnostics(
                    record.frame_id,
                    record.objects@.subrange(0, k as int),
                ),
            decreases record.objects@.len() - k,
        {
            let checks = record.objects[k];
            let ghost mid = diagnostics_view(diagnostics@);
            assert(record.objects@.subrange(0, k + 1).drop_last() =~= record.objects@.subrange(
                0,
                k as int,
            ));
            if !checks.bbox_size_positive {
                let d = ValidationDiagnostic {
                    frame_id: Some(record.frame_id),
                    message: object_message(k, " has non-positive bbox size"),
                };
                proof {
                    lemma_push_view(diagnostics@, d);
                }
                diagnostics.push(d);
            }
            if !checks.confidence_in_unit_range {
                let d = ValidationDiagnostic {
                    frame_id: Some(record.frame_id),
                    message: object_message(k, " confidence is outside [0, 1]"),
                };
                proof {
                    lemma_push_view(diagnostics@, d);
                }
                diagnostics.push(d);
            }
            assert(diagnostics_view(diagnostics@) =~= mid + object_diagnostics(
                record.frame_id,
                k as nat,
                checks,
            ));
            assert(diagnostics_view(diagnostics@) =~= head + objects_diagnostics(
                record.frame_id,
                record.objects@.subrange(0, k + 1),
            ));
            k = k + 1;
        }
        assert(record.objects@.subrange(0, record.objects@.len() as int) =~= record.objects@);
        assert(diagnostics_view(diagnostics@) =~= records_diagnostics(
            records@.subrange(0, r + 1),
        ));
        r = r + 1;
    }
    assert(records@.subrange(0, records@.len() as int) =~= records@);
    diagnostics
}

/// Whether a record passes every check.
pub open spec fn record_clean(record: RecordChecks) -> bool {
    record.has_split_group && forall|k: int|
        0 <= k < record.objects@.len() ==> (#[trigger] record.objects@[k]).bbox_size_positive
            && record.objects@[k].confidence_in_unit_range
}

proof fn lemma_objects_clean(frame_id: u64, objects: Seq<ObjectChecks>)
    ensures
        objects_diagnostics(frame_id, objects).len() == 0 <==> forall|k: int|
            0 <= k < objects.len() ==> (#[trigger] objects[k]).bbox_size_positive
                && objects[k].confidence_in_unit_range,
    decreases objects.len(),
{
    if objects.len() > 0 {
        let front = objects.drop_last();
        lemma_objects_clean(frame_id, front);
        assert forall|k: int| 0 <= k < front.len() implies #[trigger] front[k] == objects[k] by {}
        if forall|k: int|
            0 <= k < objects.len() ==> (#[trigger] objects[k]).bbox_size_positive
                && objects[k].confidence_in_unit_range {
            assert(objects[objects.len() - 1] == objects.last());
            assert forall|k: int| 0 <= k < front.len() implies (#[trigger] front[k]).bbox_size_positive
                && front[k].confidence_in_unit_range by {
                assert(front[k] == objects[k]);
            }
        }
        if objects_diagnostics(frame_id, objects).len() == 0 {
            assert forall|k: int| 0 <= k < objects.len() implies (#[trigger] objects[k]).bbox_size_positive
                && objects[k].confidence_in_unit_range by {
                if k < front.len() {
                    assert(front[k] == objects[k]);
                } else {
                    assert(objects[k] == objects.last());
                }
            }
        }
    }
}

/// Validation reports nothing exactly when every frame names a split group and every
/// object has a positive box size and a confidence in [0, 1].
pub proof fn lemma_no_diagnostics_iff_clean(records: Seq<RecordChecks>)
    ensures
        records_diagnostics(records).len() == 0 <==> forall|r: int|
            0 <= r < records.len() ==> record_clean(#[trigger] records[r]),
    decreases records.len(),
{
    if records.len() > 0 {
        let front = records.drop_last();
        let last = records.last();
        lemma_no_diagnostics_iff_clean(front);
        lemma_objects_clean(last.frame_id, last.objects@);
        if records_diagnostics(records).len() == 0 {
            assert forall|r: int| 0 <= r < records.len() implies record_clean(#[trigger] records[r]) by {
                if r < front.len() {
                    assert(front[r] == records[r]);
                    assert(record_clean(front[r]));
                } else {
                    assert(records[r] == last);
                }
            }
        }
        if forall|r: int| 0 <= r < records.len() ==> record_clean(#[trigger] records[r]) {
            assert forall|r: int| 0 <= r < front.len() implies record_clean(#[trigger] front[r]) by {
                assert(front[r] == records[r]);
            }
            assert(record_clean(records[records.len() - 1]));
        }
    }
}

proof fn lemma_contained_left(a: Seq<(Option<u64>, Seq<char>)>, b: Seq<(Option<u64>, Seq<char>)>, d: (Option<u64>, Seq<char>))
    requires
        a.contains(d),
    ensures
        (a + b).contains(d),
{
    let i = choose|i: int| 0 <= i < a.len() && a[i] == d;
    assert((a + b)[i] == d);
}

proof fn lemma_contained_right(a: Seq<(Option<u64>, Seq<char>)>, b: Seq<(Option<u64>, Seq<char>)>, d: (Option<u64>, Seq<char>))
    requires
        b.contains(d),
    ensures
        (a + b).contains(d),
{
    let i = choose|i: int| 0 <= i < b.len() && b[i] == d;
    assert((a + b)[a.len() + i] == d);
}

proof fn lemma_object_failures_reported(frame_id: u64, objects: Seq<ObjectChecks>, k: int)
    requires
        0 <= k < objects.len(),
    ensures
        !objects[k].bbox_size_positive ==> objects_diagnostics(frame_id, objects).contains(
            (Some(frame_id), "object "@ + decimal(k as nat) + " has non-positive bbox size"@),
        ),
        !objects[k].confidence_in_unit_range ==> objects_diagnostics(frame_id, objects).contains(
            (Some(frame_id), "object "@ + decimal(k as nat) + " confidence is outside [0, 1]"@),
        ),
    decreases objects.len(),
{
    let front = objects.drop_last();
    let own = object_diagnostics(frame_id, (objects.len() - 1) as nat, objects.last());
    let box_entry = (Some(frame_id), "object "@ + decimal(k as nat) + " has non-positive bbox size"@);
    let range_entry = (Some(frame_id), "object "@ + decimal(k as nat) + " confidence is outside [0, 1]"@);
    if k < front.len() {
        lemma_object_failures_reported(frame_id, front, k);
        assert(front[k] == objects[k]);
        if !objects[k].bbox_size_positive {
            lemma_contained_left(objects_diagnostics(frame_id, front), own, box_entry);
        }
        if !objects[k].confidence_in_unit_range {
            lemma_contained_left(objects_diagnostics(frame_id, front), own, range_entry);
        }
    } else {
        let checks = objects.last();
        assert(objects[k] == checks);
        let first: Seq<(Option<u64>, Seq<char>)> = if checks.bbox_size_positive {
            Seq::empty()
        } else {
            seq![(Some(frame_id), bbox_message(k as nat))]
        };
        let second: Seq<(Option<u64>, Seq<char>)> = if checks.confidence_in_unit_range {
            Seq::empty()
        } else {
            seq![(Some(frame_id), confidence_message(k as nat))]
        };
        assert(own == first + second);
        if !checks.bbox_size_positive {
            assert(first[0] == box_entry);
            lemma_contained_left(first, second, box_entry);
            lemma_contained_right(objects_diagnostics(frame_id, front), own, box_entry);
        }
        if !checks.confidence_in_unit_range {
            assert(second[0] == range_entry);
            lemma_contained_right(first, second, range_entry);
            lemma_contained_right(objects_diagnostics(frame_id, front), own, range_entry);
        }
    }
}

/// Validation checks every object of every record: a record without session or scene
/// is reported, and for each object index k a non-positive box and an out-of-range
/// confidence are each reported with the record's frame id and "object k", whatever
/// the other objects and records hold.
pub proof fn lemma_every_failed_check_is_reported(records: Seq<RecordChecks>, r: int, k: int)
    requires
        0 <= r < records.len(),
        0 <= k < records[r].objects@.len(),
    ensures
        !records[r].has_split_group ==> records_diagnostics(records).contains(
            (
                Some(records[r].frame_id),
                "frame should include session_id or scene_id for grouped splits"@,
            ),
        ),
        !records[r].objects@[k].bbox_size_positive ==> records_diagnostics(records).contains(
            (Some(records[r].frame_id), "object "@ + decimal(k as nat) + " has non-positive bbox size"@),
        ),
        !records[r].objects@[k].confidence_in_unit_range ==> records_diagnostics(records).contains(
            (
                Some(records[r].frame_id),
                "object "@ + decimal(k as nat) + " confidence is outside [0, 1]"@,
            ),
        ),
    decreases records.len(),
{
    let front = records.drop_last();
    let record = records.last();
    let own = record_diagnostics(record);
    let group_entry = (
        Some(records[r].frame_id),
        "frame should include session_id or scene_id for grouped splits"@,
    );
    let box_entry = (
        Some(records[r].frame_id),
        "object "@ + decimal(k as nat) + " has non-positive bbox size"@,
    );
    let range_entry = (
        Some(records[r].frame_id),
        "object "@ + decimal(k as nat) + " confidence is outside [0, 1]"@,
    );
    if r < front.len() {
        assert(front[r] == records[r]);
        lemma_every_failed_check_is_reported(front, r, k);
        if !records[r].has_split_group {
            lemma_contained_left(records_diagnostics(front), own, group_entry);
        }
        if !records[r].objects@[k].bbox_size_positive {
            lemma_contained_left(records_diagnostics(front), own, box_entry);
        }
        if !records[r].objects@[k].confidence_in_unit_range {
            lemma_contained_left(records_diagnostics(front), own, range_entry);
        }
    } else {
        assert(records[r] == record);
        let head: Seq<(Option<u64>, Seq<char>)> = if record.has_split_group {
            Seq::empty()
        } else {
            seq![(Some(record.frame_id), missing_group_message())]
        };
        let tail = objects_diagnostics(record.frame_id, record.objects@);
        assert(own == head + tail);
        if !record.has_split_group {
            assert(head[0] == group_entry);
            lemma_contained_left(head, tail, group_entry);
            lemma_contained_right(records_diagnostics(front), own, group_entry);
        }
        lemma_object_failures_reported(record.frame_id, record.objects@, k);
        if !records[r].objects@[k].bbox_size_positive {
            lemma_contained_right(head, tail, box_entry);
            lemma_contained_right(records_diagnostics(front), own, box_entry);
        }
        if !records[r].objects@[k].confidence_in_unit_range {
            lemma_contained_right(head, tail, range_entry);
            lemma_contained_right(records_diagnostics(front), own, range_entry);
        }
    }
}

/// How many of the objects' checks fail (each object has two).
pub open spec fn failed_object_checks(objects: Seq<ObjectChecks>) -> nat
    decreases objects.len(),
{
    if objects.len() == 0 {
        0
    } else {
        failed_object_checks(objects.drop_first()) + (if objects[0].bbox_size_positive {
            0nat
        } else {
            1nat
        }) + (if objects[0].confidence_in_unit_range {
            0nat
        } else {
            1nat
        })
    }
}

/// How many checks fail over all records: a missing split group counts once per record,
/// then each failed object check.
pub open spec fn failed_checks(records: Seq<RecordChecks>) -> nat
    decreases records.len(),
{
    if records.len() == 0 {
        0
    } else {
        failed_checks(records.drop_first()) + (if records[0].has_split_group {
            0nat
        } else {
            1nat
        }) + failed_object_checks(records[0].objects@)
    }
}

proof fn lemma_failed_object_checks_split(objects: Seq<ObjectChecks>)
    requires
        objects.len() > 0,
    ensures
        failed_object_checks(objects) == failed_object_checks(objects.drop_last()) + (if objects.last().bbox_size_positive {
            0nat
        } else {
            1nat
        }) + (if objects.last().confidence_in_unit_range {
            0nat
        } else {
            1nat
        }),
    decreases objects.len(),
{
    if objects.len() > 1 {
        lemma_failed_object_checks_split(objects.drop_first());
        assert(objects.drop_first().drop_last() =~= objects.drop_last().drop_first());
        assert(objects.drop_first().last() == objects.last());
        assert(objects.drop_last()[0] == objects[0]);
        assert(failed_object_checks(objects.drop_last()) == failed_object_checks(
            objects.drop_last().drop_first(),
        ) + (if objects[0].bbox_size_positive { 0nat } else { 1nat }) + (if objects[0].confidence_in_unit_range {
            0nat
        } else {
            1nat
        }));
    } else {
        assert(objects.drop_first().len() == 0);
        assert(objects.drop_last().len() == 0);
        assert(failed_object_checks(objects.drop_first()) == 0);
        assert(failed_object_checks(objects.drop_last()) == 0);
        assert(objects[0] == objects.last());
    }
}

proof fn lemma_object_diagnostic_count(frame_id: u64, objects: Seq<ObjectChecks>)
    ensures
        objects_diagnostics(frame_id, objects).len() == failed_object_checks(objects),
    decreases objects.len(),
{
    if objects.len() > 0 {
        lemma_object_diagnostic_count(frame_id, objects.drop_last());
        lemma_failed_object_checks_split(objects);
    }
}

proof fn lemma_failed_checks_split(records: Seq<RecordChecks>)
    requires
        records.len() > 0,
    ensures
        failed_checks(records) == failed_checks(records.drop_last()) + (if records.last().has_split_group {
            0nat
        } else {
            1nat
        }) + failed_object_checks(records.last().objects@),
    decreases records.len(),
{
    if records.len() > 1 {
        lemma_failed_checks_split(records.drop_first());
        assert(records.drop_first().drop_last() =~= records.drop_last().drop_first());
        assert(records.drop_first().last() == records.last());
        assert(records.drop_last()[0] == records[0]);
        assert(failed_checks(records.drop_last()) == failed_checks(records.drop_last().drop_first())
            + (if records[0].has_split_group { 0nat } else { 1nat }) + failed_object_checks(
            records[0].objects@,
        ));
    } else {
        assert(records.drop_first().len() == 0);
        assert(records.drop_last().len() == 0);
        assert(failed_checks(records.drop_first()) == 0);
        assert(failed_checks(records.drop_last()) == 0);
        assert(records[0] == records.last());
    }
}

/// Validation reports exactly one diagnostic per failed check: the number of diagnostics
/// is the number of records without a split group plus the number of failed box and
/// confidence checks over all objects.
pub proof fn lemma_one_diagnostic_per_failed_check(records: Seq<RecordChecks>)
    ensures
        records_diagnostics(records).len() == failed_checks(records),
    decreases records.len(),
{
    if records.len() > 0 {
        lemma_one_diagnostic_per_failed_check(records.drop_last());
        lemma_failed_checks_split(records);
        lemma_object_diagnostic_count(records.last().frame_id, records.last().objects@);
    }
}

} // verus!
