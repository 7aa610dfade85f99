use autoaim::update::{explicit_install_dir, parse_update_check_output};

#[test]
fn update_report_reads_versions_and_status_line() {
    let report = "Checking...\r\nInstalled version: 1.2.0 \r\nLatest version:   1.3.0\nIncremental update available: 4 files\n";
    assert_eq!(
        parse_update_check_output(report),
        (Some(true), Some("1.2.0".to_string()), Some("1.3.0".to_string()))
    );
    let report = "  Already up to date\nInstalled version: 2.0";
    assert_eq!(
        parse_update_check_output(report),
        (Some(false), Some("2.0".to_string()), None)
    );
}

#[test]
fn update_report_compares_versions_without_status_line() {
    assert_eq!(
        parse_update_check_output("Installed version: 1.0\nLatest version: 1.0\n"),
        (Some(false), Some("1.0".to_string()), Some("1.0".to_string()))
    );
    assert_eq!(
        parse_update_check_output("Installed version: 1.0\nLatest version: 1.1"),
        (Some(true), Some("1.0".to_string()), Some("1.1".to_string()))
    );
    assert_eq!(parse_update_check_output(""), (None, None, None));
    assert_eq!(
        parse_update_check_output("Latest version: 3"),
        (None, None, Some("3".to_string()))
    );
}

#[test]
fn update_report_later_lines_win() {
    let report = "Incremental update available\nAlready up to date\nLatest version: a\nLatest version: b\n";
    assert_eq!(
        parse_update_check_output(report),
        (Some(false), None, Some("b".to_string()))
    );
}

#[test]
fn explicit_install_dir_ignores_blank_values() {
    assert_eq!(explicit_install_dir(Some("C:\\autoaim")), Some("C:\\autoaim"));
    assert_eq!(explicit_install_dir(Some("   ")), None);
    assert_eq!(explicit_install_dir(Some("")), None);
    assert_eq!(explicit_install_dir(None), None);
}
