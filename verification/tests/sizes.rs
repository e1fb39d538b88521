use macclean::bars::bar_cells;
use macclean::scan::{human, on_disk_bytes_from_blocks};

/// The size as floating point writes it.
fn by_float(bytes: u64) -> String {
    let units = ["B", "K", "M", "G", "T", "P"];
    let mut v = bytes as f64;
    let mut u = 0;
    while v >= 1024.0 && u < units.len() - 1 {
        v /= 1024.0;
        u += 1;
    }
    if u == 0 {
        format!("{}{}", bytes, units[0])
    } else {
        format!("{:.1}{}", v, units[u])
    }
}

/// The bar as floating point scales it.
fn bar_by_float(size: u64, max_size: u64, max_width: u16) -> u16 {
    if size == 0 || max_size == 0 || max_width == 0 {
        return 0;
    }
    let frac = size as f64 / max_size as f64;
    let cells = (frac * max_width as f64).round() as u16;
    cells.clamp(1, max_width)
}

/// Numbers that look random, the same every time.
fn scrambled(seed: &mut u64) -> u64 {
    *seed ^= *seed << 13;
    *seed ^= *seed >> 7;
    *seed ^= *seed << 17;
    *seed
}

#[test]
fn human_sizes() {
    assert_eq!(human(0), "0B");
    assert_eq!(human(1023), "1023B");
    assert_eq!(human(1024), "1.0K");
    assert_eq!(human(1536), "1.5K");
    assert_eq!(human(1024 * 1024 - 1), "1024.0K");
    assert_eq!(human(1024 * 1024), "1.0M");
    assert_eq!(human(39 * 1024 * 1024 * 1024), "39.0G");
    assert_eq!(human(u64::MAX), "16384.0P");
    // Half way between two tenths, the even one is written.
    assert_eq!(human(1024 + 256), "1.2K");
    assert_eq!(human(1024 + 768), "1.8K");
}

#[test]
fn human_agrees_with_floating_point() {
    let mut seed = 0x9e37_79b9_7f4a_7c15;
    for shift in 0..64 {
        for delta in 0..3 {
            let n = (1u64 << shift).wrapping_add(delta).wrapping_sub(1);
            assert_eq!(human(n), by_float(n), "{n}");
        }
        for _ in 0..200 {
            let n = scrambled(&mut seed) >> shift;
            assert_eq!(human(n), by_float(n), "{n}");
        }
    }
    // Every half of a tenth of a unit.
    for k in 0..4096u64 {
        let n = 1024 * 64 + k * 256;
        assert_eq!(human(n), by_float(n), "{n}");
    }
}

#[test]
fn bar_cells_scales_proportionally_and_safely() {
    assert_eq!(bar_cells(100, 100, 20), 20, "largest fills the pane");
    assert_eq!(bar_cells(50, 100, 20), 10, "half size → half width");
    assert_eq!(bar_cells(1, 1_000_000, 20), 1, "tiny Item keeps one cell");
    assert_eq!(bar_cells(0, 100, 20), 0, "empty Item draws nothing");
    assert_eq!(bar_cells(50, 0, 20), 0, "zero scale never divides by zero");
    assert_eq!(bar_cells(50, 100, 0), 0, "zero width draws nothing");
    // Monotonic in size and never wider than the pane.
    assert!(bar_cells(30, 100, 20) <= bar_cells(60, 100, 20));
    assert!(bar_cells(u64::MAX, 100, 20) <= 20);
}

#[test]
fn bar_cells_agree_with_floating_point() {
    let mut seed = 0x1234_5678_9abc_def1;
    for shift in 0..60 {
        for _ in 0..300 {
            let a = scrambled(&mut seed) >> shift;
            let b = scrambled(&mut seed) >> (shift / 2);
            let w = (scrambled(&mut seed) >> 50) as u16;
            assert_eq!(bar_cells(a, b, w), bar_by_float(a, b, w), "{a} {b} {w}");
            assert_eq!(bar_cells(b, a, w), bar_by_float(b, a, w), "{b} {a} {w}");
        }
    }
    // Exact halves, and halves that only rounding makes or breaks.
    for w in 1..200u16 {
        for size in 1..100u64 {
            assert_eq!(bar_cells(size, 100, w), bar_by_float(size, 100, w), "{size} {w}");
            assert_eq!(bar_cells(size, 6, w), bar_by_float(size, 6, w), "{size} {w}");
        }
    }
    assert_eq!(bar_cells(u64::MAX - 1, u64::MAX, u16::MAX), u16::MAX);
}

#[test]
fn block_counts_become_bytes() {
    assert_eq!(on_disk_bytes_from_blocks(8), 4096);
    assert_eq!(on_disk_bytes_from_blocks(0), 0);
    assert_eq!(on_disk_bytes_from_blocks(-1), 0);
    assert_eq!(on_disk_bytes_from_blocks(i64::MAX), u64::MAX);
}
