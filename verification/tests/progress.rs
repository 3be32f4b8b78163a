use verishare::progress::{pct_of, Meter, PROGRESS_THROTTLE};

fn float_percent(done: u64, total: u64) -> u32 {
    if total == 0 {
        return 100;
    }
    ((done as f64 / total as f64) * 100.0) as u32
}

#[test]
fn percentages_are_cut_after_double_precision() {
    assert_eq!(pct_of(0, 0), 100);
    assert_eq!(pct_of(5, 0), 100);
    assert_eq!(pct_of(0, 10), 0);
    assert_eq!(pct_of(1, 3), 33);
    assert_eq!(pct_of(2, 3), 66);
    assert_eq!(pct_of(29, 100), 28);
    assert_eq!(pct_of(57, 100), 56);
    assert_eq!(pct_of(58, 100), 57);
    assert_eq!(pct_of(99, 100), 99);
    assert_eq!(pct_of(3, 2), 150);
    assert_eq!(pct_of(u64::MAX, 1), u32::MAX);
    assert_eq!(pct_of(1, u64::MAX), 0);
}

#[test]
fn percentages_are_those_of_double_precision() {
    let mut x: u64 = 3;
    let mut i = 0;
    while i < 200_000 {
        x = x.wrapping_mul(6364136223846793005).wrapping_add(1442695040888963407);
        let total = x >> (i % 64);
        let done = x.rotate_left(29) >> (i % 61);
        assert_eq!(pct_of(done, total), float_percent(done, total), "{} of {}", done, total);
        i += 1;
    }
    let mut total: u64 = 1;
    while total < 300 {
        let mut done: u64 = 0;
        while done <= total + 3 {
            assert_eq!(pct_of(done, total), float_percent(done, total));
            done += 1;
        }
        total += 1;
    }
}

#[test]
fn everything_is_one_hundred() {
    let mut x: u64 = 5;
    let mut i = 0;
    while i < 10_000 {
        x = x.wrapping_mul(6364136223846793005).wrapping_add(1442695040888963407);
        let total = x >> (i % 64);
        assert_eq!(pct_of(total, total), 100);
        assert!(pct_of(total / 2, total) <= pct_of(total - total / 3, total));
        i += 1;
    }
    assert_eq!(pct_of(u64::MAX, u64::MAX), 100);
}

#[test]
fn progress_is_told_when_it_grows_or_time_has_passed() {
    let mut m = Meter::new(1000, 7);
    assert_eq!((m.total, m.done, m.last_pct, m.last_emit, m.last_emit_bytes), (1000, 0, 0, 7, 0));

    assert_eq!(m.advance(5, 8), None);
    assert_eq!(m.done, 5);

    let t = m.advance(10, 9).unwrap();
    assert_eq!((t.pct, t.is_done, t.bytes_since, t.elapsed), (1, false, 15, 2));
    assert_eq!((m.last_pct, m.last_emit, m.last_emit_bytes), (1, 9, 15));

    assert_eq!(m.advance(1, 9 + PROGRESS_THROTTLE - 1), None);
    let t = m.advance(1, 9 + PROGRESS_THROTTLE).unwrap();
    assert_eq!((t.pct, t.bytes_since, t.elapsed), (1, 2, PROGRESS_THROTTLE));
    assert_eq!(m.done, 17);
}

#[test]
fn the_end_is_told_at_once_and_again() {
    let mut m = Meter::new(10, 0);
    m.skip(4);
    assert_eq!((m.done, m.last_emit_bytes, m.last_pct), (4, 0, 0));
    let t = m.advance(6, 0).unwrap();
    assert_eq!((t.pct, t.is_done, t.bytes_since, t.elapsed), (100, true, 10, 0));
    let t = m.advance(0, 0).unwrap();
    assert_eq!((t.pct, t.is_done, t.bytes_since), (100, true, 0));
}

#[test]
fn a_clock_that_goes_back_counts_as_no_time() {
    let mut m = Meter::new(1_000_000, 100);
    assert_eq!(m.advance(1, 50), None);
    let t = m.advance(500_000, 50).unwrap();
    assert_eq!((t.pct, t.elapsed), (50, 0));
}
