use autoaim::validate::{validate_records, ObjectChecks, RecordChecks, ValidationDiagnostic};

fn ok_object() -> ObjectChecks {
    ObjectChecks {
        bbox_size_positive: true,
        confidence_in_unit_range: true,
    }
}

#[test]
fn clean_records_give_no_diagnostics() {
    let records = vec![
        RecordChecks { frame_id: 1, has_split_group: true, objects: vec![ok_object()] },
        RecordChecks { frame_id: 2, has_split_group: true, objects: vec![] },
    ];
    assert!(validate_records(&records).is_empty());
    assert!(validate_records(&[]).is_empty());
}

#[test]
fn each_problem_is_reported_in_order() {
    let records = vec![
        RecordChecks {
            frame_id: 7,
            has_split_group: false,
            objects: vec![
                ok_object(),
                ObjectChecks { bbox_size_positive: false, confidence_in_unit_range: false },
            ],
        },
        RecordChecks {
            frame_id: 12,
            has_split_group: true,
            objects: vec![ObjectChecks { bbox_size_positive: true, confidence_in_unit_range: false }],
        },
    ];
    let diagnostics = validate_records(&records);
    assert_eq!(
        diagnostics,
        vec![
            ValidationDiagnostic {
                frame_id: Some(7),
                message: "frame should include session_id or scene_id for grouped splits".to_string(),
            },
            ValidationDiagnostic {
                frame_id: Some(7),
                message: "object 1 has non-positive bbox size".to_string(),
            },
            ValidationDiagnostic {
                frame_id: Some(7),
                message: "object 1 confidence is outside [0, 1]".to_string(),
            },
            ValidationDiagnostic {
                frame_id: Some(12),
                message: "object 0 confidence is outside [0, 1]".to_string(),
            },
        ]
    );
}
