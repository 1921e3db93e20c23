use litepad::version::compare_versions;

fn reference(current: &str, latest: &str) -> bool {
    let current_parts: Vec<u32> =
        current.trim_start_matches('v').split('.').filter_map(|s| s.parse().ok()).collect();
    let latest_parts: Vec<u32> =
        latest.trim_start_matches('v').split('.').filter_map(|s| s.parse().ok()).collect();
    for i in 0..3 {
        let c = current_parts.get(i).unwrap_or(&0);
        let l = latest_parts.get(i).unwrap_or(&0);
        if l > c {
            return true;
        } else if l < c {
            return false;
        }
    }
    false
}

#[test]
fn newer_patch_minor_and_major_are_updates() {
    assert!(compare_versions("1.2.3", "1.2.4"));
    assert!(compare_versions("1.2.3", "1.3.0"));
    assert!(compare_versions("1.2.3", "2.0.0"));
    assert!(compare_versions("v1.2.3", "v1.2.4"));
}

#[test]
fn same_or_older_is_no_update() {
    assert!(!compare_versions("1.2.3", "1.2.3"));
    assert!(!compare_versions("1.2.3", "v1.2.3"));
    assert!(!compare_versions("1.2.3", "1.2.2"));
    assert!(!compare_versions("2.0.0", "1.9.9"));
}

#[test]
fn missing_numbers_count_as_zero() {
    assert!(!compare_versions("1.2", "1.2.0"));
    assert!(compare_versions("1.2", "1.2.1"));
    assert!(compare_versions("", "0.0.1"));
    assert!(!compare_versions("", ""));
}

#[test]
fn only_three_numbers_are_compared() {
    assert!(!compare_versions("1.2.3.4", "1.2.3.5"));
}

#[test]
fn pieces_that_are_no_numbers_are_passed_over() {
    assert!(compare_versions("1.x.2", "1.3"));
    assert!(compare_versions("1.2.3-beta", "1.2.3"));
    assert!(!compare_versions("1.2.0", "1.2.3-beta"));
}

#[test]
fn agrees_with_the_standard_library_on_many_inputs() {
    let samples = [
        "", "v", "vv1.2.3", "1", "1.", ".1", "1..2", "+1.2.3", "-1.2.3", "1.+2.3", "1.2.+",
        "01.002.0003", "4294967295.0.0", "4294967296.0.0", "99999999999999999999.1.1",
        "0000000000000000000001.2", "1.2.3", "1.2.4", "1.3", "2", "v2.0.0", "1.2.3.4",
        "1.a.3", "1.2.3-rc1", "1 .2", "v1v.2", "\u{ff11}.2.3", "1.2.3.", "...", "+", "+.+.+",
        "1.2.3v", "V1.2.3", "10.20.30", "9.9.9",
    ];
    for a in samples.iter() {
        for b in samples.iter() {
            assert_eq!(compare_versions(a, b), reference(a, b), "current {:?}, latest {:?}", a, b);
        }
    }
}
