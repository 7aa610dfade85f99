use autoaim::telemetry::{
    cpu_busy_ticks, cpu_times_sample, filetime_to_u64, nvidia_smi_fields, parse_u64,
    CpuTimesSample,
};

#[test]
fn filetime_joins_high_and_low_halves() {
    assert_eq!(filetime_to_u64(0, 0), 0);
    assert_eq!(filetime_to_u64(1, 2), 0x1_0000_0002);
    assert_eq!(filetime_to_u64(u32::MAX, u32::MAX), u64::MAX);
}

#[test]
fn cpu_usage_ticks_from_two_samples() {
    let first = cpu_times_sample(100, 300, 200);
    assert_eq!(first, CpuTimesSample { idle: 100, total: 500 });
    assert_eq!(cpu_busy_ticks(None, first), None);
    let second = cpu_times_sample(150, 400, 300);
    assert_eq!(cpu_busy_ticks(Some(first), second), Some((150, 200)));
    assert_eq!(cpu_busy_ticks(Some(second), second), None);
    assert_eq!(cpu_times_sample(0, u64::MAX, 5).total, u64::MAX);
}

#[test]
fn nvidia_smi_report_fields() {
    assert_eq!(
        nvidia_smi_fields(" 37, 2048 , 8192\r\n12, 1, 2\n"),
        Ok(vec!["37".to_string(), "2048".to_string(), "8192".to_string()])
    );
    assert_eq!(
        nvidia_smi_fields("5,6,7,8"),
        Ok(vec!["5".to_string(), "6".to_string(), "7".to_string(), "8".to_string()])
    );
    assert_eq!(nvidia_smi_fields("a,,b"), Ok(vec!["a".to_string(), "".to_string(), "b".to_string()]));
    assert_eq!(nvidia_smi_fields(""), Err("nvidia-smi returned empty output".to_string()));
    assert_eq!(nvidia_smi_fields("  \n1,2,3"), Err("nvidia-smi returned empty output".to_string()));
    assert_eq!(
        nvidia_smi_fields(" 37, 2048 \n"),
        Err("unexpected nvidia-smi output: 37, 2048".to_string())
    );
}

#[test]
fn parse_u64_follows_std() {
    assert_eq!(parse_u64("2048"), Some(2048));
    assert_eq!(parse_u64("+7"), Some(7));
    assert_eq!(parse_u64("007"), Some(7));
    assert_eq!(parse_u64("18446744073709551615"), Some(u64::MAX));
    assert_eq!(parse_u64("18446744073709551616"), None);
    assert_eq!(parse_u64("99999999999999999999x"), None);
    assert_eq!(parse_u64(""), None);
    assert_eq!(parse_u64("+"), None);
    assert_eq!(parse_u64("-1"), None);
    assert_eq!(parse_u64("1.5"), None);
    assert_eq!(parse_u64(" 1"), None);
    for text in ["0", "42", "+42", "-0", "4x", "", "+", "123456789012345678901"] {
        assert_eq!(parse_u64(text), text.parse::<u64>().ok());
    }
}
