use rust_debug::humanize;

fn reference(us: u128) -> String {
    const MS: u128 = 1_000;
    const SEC: u128 = 1_000_000;
    const MIN: u128 = 60 * SEC;
    const HOUR: u128 = 60 * MIN;
    if us >= HOUR {
        format!("{:.1}h", us as f64 / HOUR as f64)
    } else if us >= MIN {
        format!("{:.1}m", us as f64 / MIN as f64)
    } else if us >= SEC {
        format!("{:.1}s", us as f64 / SEC as f64)
    } else if us >= MS {
        format!("{:.1}ms", us as f64 / MS as f64)
    } else {
        format!("{}us", us)
    }
}

#[test]
fn test_humanize() {
    assert_eq!(humanize(0), "0us");
    assert_eq!(humanize(500), "500us");
    assert_eq!(humanize(1_500), "1.5ms");
    assert_eq!(humanize(1_500_000), "1.5s");
    assert_eq!(humanize(90_000_000), "1.5m");
    assert_eq!(humanize(5_400_000_000), "1.5h");
}

#[test]
fn humanize_rounds_like_f64_formatting_on_ties() {
    assert_eq!(humanize(1_250), "1.2ms");
    assert_eq!(humanize(1_750), "1.8ms");
    assert_eq!(humanize(1_050), "1.1ms");
    assert_eq!(humanize(1_150), "1.1ms");
    assert_eq!(humanize(999_999), "1000.0ms");
    for us in [1_050u128, 1_150, 1_250, 1_350, 2_450, 8_650, 12_550] {
        assert_eq!(humanize(us), reference(us), "{}", us);
    }
}

#[test]
fn humanize_matches_f64_formatting_on_a_sweep() {
    for us in 0u128..300_000 {
        assert_eq!(humanize(us), reference(us), "{}", us);
    }
    let mut x: u128 = 0x9E37_79B9_7F4A_7C15;
    for _ in 0..200_000 {
        x = x.wrapping_mul(0x2545_F491_4F6C_DD1D_9E37_79B9_7F4A_7C15).wrapping_add(1442695040888963407);
        let shift = (x >> 121) as u32;
        let us = x >> shift;
        assert_eq!(humanize(us), reference(us), "{}", us);
    }
}

#[test]
fn humanize_matches_f64_formatting_at_extremes() {
    let two53: u128 = 1 << 53;
    for us in [two53 - 1, two53, two53 + 1, two53 + 3, u64::MAX as u128, u128::MAX, u128::MAX - 1, 1 << 127, 3_600_000_000 * 1_000_000_007] {
        assert_eq!(humanize(us), reference(us), "{}", us);
    }
    for p in 3..39u32 {
        let us = 10u128.pow(p);
        assert_eq!(humanize(us), reference(us), "{}", us);
        assert_eq!(humanize(us - 1), reference(us - 1), "{}", us - 1);
        assert_eq!(humanize(us + 1), reference(us + 1), "{}", us + 1);
    }
}
