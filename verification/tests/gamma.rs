use sn3218::{GammaTable, SN3218};

const LEVELS: [u8; 256] = [
    1, 1, 1, 1, 1, 1, 1, 1, 1, 1, 1, 1, 1, 1, 1, 1, 1, 1, 1, 1, 1, 1, 1, 1, 1, 1, 1, 1, 1,
    1, 1, 1, 2, 2, 2, 2, 2, 2, 2, 2, 2, 2, 2, 2, 2, 2, 2, 2, 2, 2, 2, 3, 3, 3, 3, 3, 3, 3,
    3, 3, 3, 3, 3, 3, 4, 4, 4, 4, 4, 4, 4, 4, 4, 4, 4, 5, 5, 5, 5, 5, 5, 5, 5, 6, 6, 6, 6,
    6, 6, 6, 7, 7, 7, 7, 7, 7, 8, 8, 8, 8, 8, 8, 9, 9, 9, 9, 10, 10, 10, 10, 10, 11, 11, 11,
    11, 12, 12, 12, 12, 13, 13, 13, 14, 14, 14, 15, 15, 15, 16, 16, 16, 17, 17, 17, 18, 18,
    19, 19, 20, 20, 20, 21, 21, 22, 22, 23, 23, 24, 24, 25, 26, 26, 27, 27, 28, 29, 29, 30,
    30, 31, 32, 33, 33, 34, 35, 36, 36, 37, 38, 39, 40, 41, 41, 42, 43, 44, 45, 46, 47, 48,
    49, 51, 52, 53, 54, 55, 56, 58, 59, 60, 62, 63, 64, 66, 67, 69, 70, 72, 73, 75, 77, 78,
    80, 82, 84, 86, 87, 89, 91, 93, 95, 98, 100, 102, 104, 106, 109, 111, 114, 116, 119,
    121, 124, 127, 130, 132, 135, 138, 141, 144, 148, 151, 154, 158, 161, 165, 168, 172,
    176, 180, 184, 188, 192, 196, 200, 205, 209, 214, 219, 223, 228, 233, 238, 244, 249, 255,
];

#[test]
fn gamma_level_of_zero_is_one() {
    let table = GammaTable::new();
    assert_eq!(table.level(0), 1);
}

#[test]
fn gamma_level_of_full_is_full() {
    let table = GammaTable::new();
    assert_eq!(table.level(255), 255);
}

#[test]
fn gamma_level_of_half_is_sixteen() {
    let table = GammaTable::new();
    assert_eq!(table.level(128), 16);
}

#[test]
fn gamma_levels_never_decrease() {
    let table = GammaTable::new();
    for raw in 0..255u8 {
        assert!(table.level(raw) <= table.level(raw + 1), "at {}", raw);
    }
}

#[test]
fn gamma_levels_are_the_known_table() {
    let table = GammaTable::new();
    for raw in 0..=255u8 {
        assert_eq!(table.level(raw), LEVELS[usize::from(raw)], "at {}", raw);
    }
}

#[test]
fn gamma_levels_are_the_rounded_down_powers() {
    let table = GammaTable::new();
    for raw in 0..=255u8 {
        let power: f64 = 255f64.powf(f64::from(raw) / 255f64);
        assert_eq!(f64::from(table.level(raw)), power.floor(), "at {}", raw);
    }
}

#[test]
fn gamma_levels_change_where_the_power_crosses_a_whole_number() {
    let table = GammaTable::new();
    // 255^(31/255) < 2 <= 255^(32/255)
    assert_eq!(table.level(31), 1);
    assert_eq!(table.level(32), 2);
    // 255^(253/255) < 249 <= 255^(254/255) < 255
    assert_eq!(table.level(253), 244);
    assert_eq!(table.level(254), 249);
}

#[test]
fn gamma_tables_are_all_alike() {
    let one = GammaTable::new();
    let other = GammaTable::new();
    for raw in 0..=255u8 {
        assert_eq!(one.level(raw), other.level(raw));
    }
}

#[test]
fn driver_holds_the_gamma_table() {
    let driver = SN3218::new();
    for raw in 0..=255u8 {
        assert_eq!(driver.gamma_table().level(raw), LEVELS[usize::from(raw)]);
    }
}

#[test]
fn gamma_table_hands_out_all_levels_at_once() {
    let table = GammaTable::new();
    assert_eq!(table.levels(), &LEVELS[..]);
}
