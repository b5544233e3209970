use nvm_core::humanize::{decimal_string, format_age, format_size, get_cache_total_size, CacheInfo};

#[test]
fn test_format_size() {
    assert_eq!(format_size(1024), "1.00 KB");
    assert_eq!(format_size(1024 * 1024), "1.00 MB");
}

#[test]
fn test_format_age() {
    assert!(format_age(30).contains("seconds"));
    assert!(format_age(300).contains("minutes"));
    assert!(format_age(7200).contains("hours"));
}

#[test]
fn test_cache_info_size_human() {
    let info = CacheInfo {
        exists: true,
        size_bytes: 1024 * 1024,
        last_updated: Some(3600),
        expires_at: None,
        is_valid: true,
    };

    assert_eq!(info.size_human_readable(), "1.00 MB");
}

#[test]
fn test_cache_info_time_human() {
    let info = CacheInfo {
        exists: true,
        size_bytes: 0,
        last_updated: Some(1800),
        expires_at: None,
        is_valid: true,
    };

    assert!(info.last_updated_human_readable().contains("minutes"));
}

#[test]
fn sizes_match_float_formatting() {
    for bytes in [0u64, 1, 512, 1023, 1024, 1536, 2047, 1048575, 1048576, 5 * 1073741824, 123456789, 987654321012] {
        let mut size = bytes as f64;
        let units = ["B", "KB", "MB", "GB"];
        let mut i = 0;
        while size >= 1024.0 && i < units.len() - 1 {
            size /= 1024.0;
            i += 1;
        }
        assert_eq!(format_size(bytes), format!("{:.2} {}", size, units[i]));
    }
}

#[test]
fn exact_sizes() {
    assert_eq!(format_size(0), "0.00 B");
    assert_eq!(format_size(1536), "1.50 KB");
    assert_eq!(format_size(3 * 1073741824), "3.00 GB");
    assert_eq!(format_size(2048 * 1073741824), "2048.00 GB");
}

#[test]
fn exact_ages() {
    assert_eq!(format_age(0), "0 seconds ago");
    assert_eq!(format_age(59), "59 seconds ago");
    assert_eq!(format_age(60), "1 minutes ago");
    assert_eq!(format_age(7200), "2 hours ago");
    assert_eq!(format_age(86400 * 3 + 5), "3 days ago");
}

#[test]
fn never_updated_cache() {
    let info = CacheInfo { exists: false, size_bytes: 0, last_updated: None, expires_at: None, is_valid: false };
    assert_eq!(info.last_updated_human_readable(), "Never");
}

#[test]
fn decimal_strings() {
    assert_eq!(decimal_string(0), "0");
    assert_eq!(decimal_string(1200), "1200");
    assert_eq!(decimal_string(u64::MAX), u64::MAX.to_string());
}

#[test]
fn total_size_checks_overflow() {
    assert_eq!(get_cache_total_size(&[]), Some(0));
    assert_eq!(get_cache_total_size(&[1, 2, 3]), Some(6));
    assert_eq!(get_cache_total_size(&[u64::MAX, 1]), None);
}
