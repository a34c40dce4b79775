use rtain::{parse_memory_size, parse_volume};

#[test]
fn test_parse_memory_size() {
    assert_eq!(parse_memory_size("100").unwrap(), 100);
    assert_eq!(parse_memory_size("100k").unwrap(), 100 * 1024);
    assert_eq!(parse_memory_size("100K").unwrap(), 100 * 1024);
    assert_eq!(parse_memory_size("100m").unwrap(), 100 * 1024 * 1024);
    assert_eq!(parse_memory_size("100M").unwrap(), 100 * 1024 * 1024);
    assert_eq!(parse_memory_size("1g").unwrap(), 1024 * 1024 * 1024);
    assert_eq!(parse_memory_size("1G").unwrap(), 1024 * 1024 * 1024);
}

#[test]
fn test_parse_memory_size_invalid() {
    assert!(parse_memory_size("invalid").is_err());
    assert!(parse_memory_size("100x").is_err());
    assert!(parse_memory_size("").is_err());
    assert!(parse_memory_size("-100").is_err());
}

#[test]
fn test_parse_memory_size_edge_cases() {
    assert_eq!(parse_memory_size("0").unwrap(), 0);
    assert_eq!(parse_memory_size("  100m  ").unwrap(), 100 * 1024 * 1024);
}

#[test]
fn memory_size_rejects_negative_and_bad_units() {
    assert!(parse_memory_size("-1").is_err());
    assert!(parse_memory_size("-5m").is_err());
    assert!(parse_memory_size("m").is_err());
    assert!(parse_memory_size("10 m").is_err());
    assert!(parse_memory_size("1.5g").is_err());
}

#[test]
fn memory_size_limits() {
    assert_eq!(parse_memory_size("9223372036854775807").unwrap(), i64::MAX);
    assert!(parse_memory_size("9223372036854775808").is_err());
    assert_eq!(parse_memory_size("8589934591g").unwrap(), 8589934591 * 1024 * 1024 * 1024);
    assert!(parse_memory_size("8589934592g").is_err());
    assert_eq!(parse_memory_size("\t7k\n").unwrap(), 7 * 1024);
}

#[test]
fn volume_needs_one_colon_and_two_halves() {
    let (h, c) = parse_volume("/host/data:/data").unwrap();
    assert_eq!(h, "/host/data");
    assert_eq!(c, "/data");
    assert!(parse_volume("/host/data").is_err());
    assert!(parse_volume(":/data").is_err());
    assert!(parse_volume("/host:").is_err());
    assert!(parse_volume("a:b:c").is_err());
    assert!(parse_volume("").is_err());
    assert!(parse_volume(":").is_err());
}
