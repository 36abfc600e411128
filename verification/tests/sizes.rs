use polaris::tui::sizes::{format_byte_progress, format_bytes};
use polaris::tui::splash::{splash_motif_cell, Shade};

/// The same in floating point.
fn reference(bytes: u64) -> String {
    let units = ["B", "KiB", "MiB", "GiB", "TiB"];
    let mut value = bytes as f64;
    let mut unit = units[0];
    for candidate in units {
        unit = candidate;
        if value < 1024.0 || candidate == units[4] {
            break;
        }
        value /= 1024.0;
    }
    if unit == "B" {
        format!("{bytes} {unit}")
    } else if value >= 100.0 {
        format!("{value:.0} {unit}")
    } else if value >= 10.0 {
        format!("{value:.1} {unit}")
    } else {
        format!("{value:.2} {unit}")
    }
}

#[test]
fn sizes_are_shown_as_floating_point_shows_them() {
    let mut seen: u64 = 0;
    let mut check = |bytes: u64| {
        assert_eq!(format_bytes(bytes), reference(bytes), "{bytes}");
        seen += 1;
    };
    for bytes in 0..200_000 {
        check(bytes);
    }
    for shift in 0..64 {
        let base = 1u64 << shift;
        for factor in [1u64, 3, 5, 9, 10, 11, 99, 100, 101, 1023] {
            for delta in -3i64..=3 {
                if let Some(product) = base.checked_mul(factor) {
                    check(product.wrapping_add(delta as u64));
                }
            }
        }
    }
    let mut x: u64 = 88_172_645_463_325_252;
    for _ in 0..200_000 {
        x ^= x << 13;
        x ^= x >> 7;
        x ^= x << 17;
        check(x);
        check(x >> (x % 64));
    }
    for k in 8192..8300u64 {
        for delta in -1100i64..=1100 {
            check((k << 40).wrapping_add(1 << 39).wrapping_add(delta as u64));
        }
    }
    assert!(seen > 600_000);
}

#[test]
fn sizes_of_each_unit() {
    assert_eq!(format_bytes(0), "0 B");
    assert_eq!(format_bytes(1023), "1023 B");
    assert_eq!(format_bytes(2048), "2.00 KiB");
    assert_eq!(format_bytes(15_872), "15.5 KiB");
    assert_eq!(format_bytes(512 << 20), "512 MiB");
    assert_eq!(format_bytes(u64::MAX), "16777216 TiB");
}

#[test]
fn progress_is_told_as_far_as_it_is_known() {
    assert_eq!(format_byte_progress(1024, Some(2048)), "1.00 KiB / 2.00 KiB");
    assert_eq!(format_byte_progress(4096, Some(2048)), "2.00 KiB / 2.00 KiB");
    assert_eq!(format_byte_progress(10, None), "10 B");
    assert_eq!(format_byte_progress(10, Some(0)), "10 B");
    assert_eq!(format_byte_progress(0, None), "");
    assert_eq!(format_byte_progress(0, Some(5)), "0 B / 5 B");
}

/// The same in floating point.
fn reference_cell(width: usize, height: usize, col: usize, row: usize) -> Shade {
    if row + 1 >= height {
        return Shade::Blank;
    }
    let w = width as f32;
    let h = height as f32;
    let layers = [
        (0usize, width, (h * 0.34).ceil() as usize, false),
        ((w * 0.18).floor() as usize, (w * 0.82).ceil() as usize, (h * 0.52).ceil() as usize, true),
        ((w * 0.46).floor() as usize, (w * 0.54).ceil() as usize, (h * 0.68).ceil() as usize, false),
        (
            (w * 0.94).floor() as usize,
            (w * 0.06).max(1.0).ceil() as usize,
            (h * 0.86).ceil() as usize,
            true,
        ),
    ];
    let mut shade = None;
    for (left, wide, high, light) in layers {
        if col >= left && col < left + wide && row < high {
            shade = Some((left, wide, high, light));
        }
    }
    match shade {
        None => Shade::Blank,
        Some((left, wide, high, light)) => {
            let edge = col == left || col + 1 == left + wide || row == 0 || row + 1 == high;
            if light && !edge {
                Shade::Light
            } else {
                Shade::Dark
            }
        }
    }
}

#[test]
fn blocks_are_those_of_floating_point() {
    for width in [1usize, 24, 50, 79, 80, 92, 100, 120, 151, 200] {
        for height in [1usize, 8, 9, 24, 25, 50, 61] {
            for row in 0..height {
                for col in 0..width {
                    assert_eq!(
                        splash_motif_cell(width, height, col, row),
                        reference_cell(width, height, col, row),
                        "{width}x{height} {col},{row}"
                    );
                }
            }
        }
    }
}

#[test]
fn blocks_of_every_width_are_those_of_floating_point() {
    for width in 1..=65_535usize {
        let w = width as f32;
        let edges = [
            (w * 0.18).floor() as usize,
            (w * 0.18).floor() as usize + (w * 0.82).ceil() as usize,
            (w * 0.46).floor() as usize,
            (w * 0.46).floor() as usize + (w * 0.54).ceil() as usize,
            (w * 0.94).floor() as usize,
            (w * 0.94).floor() as usize + (w * 0.06).max(1.0).ceil() as usize,
        ];
        for edge in edges {
            for col in [edge.saturating_sub(1), edge] {
                if col < width {
                    for row in [1usize, 8, 12, 16, 20] {
                        assert_eq!(
                            splash_motif_cell(width, 25, col, row),
                            reference_cell(width, 25, col, row),
                            "{width} {col},{row}"
                        );
                    }
                }
            }
        }
    }
}

#[test]
fn blocks_of_every_height_are_those_of_floating_point() {
    for height in 1..=65_535usize {
        let h = height as f32;
        for share in [0.34f32, 0.52, 0.68, 0.86] {
            let edge = (h * share).ceil() as usize;
            for row in [edge.saturating_sub(2), edge.saturating_sub(1), edge] {
                if row < height {
                    for col in [1usize, 19, 47, 96] {
                        assert_eq!(
                            splash_motif_cell(100, height, col, row),
                            reference_cell(100, height, col, row),
                            "{height} {col},{row}"
                        );
                    }
                }
            }
        }
    }
}
