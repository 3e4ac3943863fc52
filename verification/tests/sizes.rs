use capn::utils::dir_size::{dir_size, dir_size_with_cancel, format_size, DirEntry};

/// The size as floating-point arithmetic gives it.
fn with_floats(bytes: u64) -> String {
    const KB: u64 = 1024;
    const MB: u64 = KB * 1024;
    const GB: u64 = MB * 1024;
    if bytes >= GB {
        format!("{:.1} GB", bytes as f64 / GB as f64)
    } else if bytes >= MB {
        format!("{:.1} MB", bytes as f64 / MB as f64)
    } else if bytes >= KB {
        format!("{:.1} KB", bytes as f64 / KB as f64)
    } else {
        format!("{} B", bytes)
    }
}

#[test]
fn sizes_are_formatted() {
    assert_eq!(format_size(0), "0 B");
    assert_eq!(format_size(1023), "1023 B");
    assert_eq!(format_size(1024), "1.0 KB");
    assert_eq!(format_size(1280), "1.2 KB");
    assert_eq!(format_size(1792), "1.8 KB");
    assert_eq!(format_size(1536), "1.5 KB");
    assert_eq!(format_size(1024 * 1024 - 1), "1024.0 KB");
    assert_eq!(format_size(1024 * 1024), "1.0 MB");
    assert_eq!(format_size(1024 * 1024 * 1024), "1.0 GB");
    assert_eq!(format_size(5_637_144_576), "5.2 GB");
    assert_eq!(format_size(u64::MAX), "17179869184.0 GB");
}

#[test]
fn sizes_agree_with_floats() {
    let mut n: u64 = 0;
    while n < 300_000 {
        assert_eq!(format_size(n), with_floats(n), "{}", n);
        n += 7;
    }
    // Numbers around each power of two, also those that a float does not hold exactly.
    for shift in 0..64u32 {
        let base: u64 = 1 << shift;
        for step in [0u64, 1, 2, 3, 255, 256, 511, 512, 513, 767, 1024, 1025, 1279, 1281, 3071, 3073] {
            for n in [base.wrapping_add(step), base.wrapping_sub(step)] {
                assert_eq!(format_size(n), with_floats(n), "{}", n);
            }
        }
    }
    // Numbers all over the range.
    let mut x: u64 = 88172645463325252;
    for _ in 0..20_000 {
        x ^= x << 13;
        x ^= x >> 7;
        x ^= x << 17;
        for n in [x, x >> 11, x >> 24, x >> 34] {
            assert_eq!(format_size(n), with_floats(n), "{}", n);
        }
    }
}

fn entries() -> Vec<DirEntry> {
    vec![
        DirEntry { is_file: false, len: Some(4096) },
        DirEntry { is_file: true, len: Some(10) },
        DirEntry { is_file: true, len: None },
        DirEntry { is_file: true, len: Some(5) },
    ]
}

#[test]
fn only_files_that_can_be_read_count() {
    assert_eq!(dir_size(true, &entries()), 15);
    assert_eq!(dir_size(false, &entries()), 0);
    assert_eq!(dir_size(true, &Vec::new()), 0);
}

#[test]
fn a_cancelled_walk_gives_the_partial_sum() {
    assert_eq!(dir_size_with_cancel(true, &entries(), Some(0)), 0);
    assert_eq!(dir_size_with_cancel(true, &entries(), Some(2)), 10);
    assert_eq!(dir_size_with_cancel(true, &entries(), Some(4)), 15);
    assert_eq!(dir_size_with_cancel(true, &entries(), Some(99)), 15);
    assert_eq!(dir_size_with_cancel(false, &entries(), Some(2)), 0);
    assert_eq!(dir_size_with_cancel(true, &entries(), None), 15);
}
