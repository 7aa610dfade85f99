use autoaim::jsonl::jsonl_lines;

fn entries(pairs: &[(usize, &str)]) -> Vec<(usize, String)> {
    pairs.iter().map(|(n, s)| (*n, s.to_string())).collect()
}

#[test]
fn jsonl_lines_skip_blank_lines_and_keep_numbers() {
    let text = "{\"a\":1}\n\n   \n{\"b\":2}\r\n{\"c\":3}";
    assert_eq!(
        jsonl_lines(text),
        entries(&[(1, "{\"a\":1}"), (4, "{\"b\":2}"), (5, "{\"c\":3}")])
    );
}

#[test]
fn jsonl_lines_edge_cases() {
    assert!(jsonl_lines("").is_empty());
    assert!(jsonl_lines("\n\r\n \t\n").is_empty());
    assert_eq!(jsonl_lines("x\n"), entries(&[(1, "x")]));
    // A carriage return is removed only before a line feed.
    assert_eq!(jsonl_lines("x\r"), entries(&[(1, "x\r")]));
    assert_eq!(jsonl_lines("x\r\r\n"), entries(&[(1, "x\r")]));
}

#[test]
fn jsonl_lines_read_back_written_records() {
    let records = ["{\"frame_id\":1}", "{\"frame_id\":2,\"note\":\"a\\nb\"}", "  {\"frame_id\":3}"];
    let mut text = String::new();
    for record in records {
        text.push_str(record);
        text.push('\n');
    }
    let expected: Vec<(usize, String)> = records
        .iter()
        .enumerate()
        .map(|(i, r)| (i + 1, r.to_string()))
        .collect();
    assert_eq!(jsonl_lines(&text), expected);
}
