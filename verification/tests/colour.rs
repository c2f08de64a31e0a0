use hexwave::colour::{clamp_byte, determine_color, get_cmap};

fn ramp() -> [[u8; 3]; 256] {
    let mut levels: Vec<[i64; 3]> = Vec::new();
    for i in 0..256i64 {
        levels.push([i, 255 - i, i / 2]);
    }
    get_cmap(&levels)
}

fn level(value: f64, base_level: f64, range: f64) -> i64 {
    let norm_value = (value - base_level) / range + 0.5;
    (norm_value * 255.0).round() as i64
}

#[test]
fn clamp_keeps_bytes_and_cuts_the_rest() {
    assert_eq!(clamp_byte(0), 0);
    assert_eq!(clamp_byte(255), 255);
    assert_eq!(clamp_byte(17), 17);
    assert_eq!(clamp_byte(-1), 0);
    assert_eq!(clamp_byte(256), 255);
    assert_eq!(clamp_byte(i64::MIN), 0);
    assert_eq!(clamp_byte(i64::MAX), 255);
}

#[test]
fn cmap_holds_the_rows_in_order() {
    let cmap = ramp();
    assert_eq!(cmap[0], [0, 255, 0]);
    assert_eq!(cmap[128], [128, 127, 64]);
    assert_eq!(cmap[255], [255, 0, 127]);
}

#[test]
fn cmap_with_few_rows_ends_in_black() {
    let cmap = get_cmap(&vec![[255, 128, 0], [1, 2, 3]]);
    assert_eq!(cmap[0], [255, 128, 0]);
    assert_eq!(cmap[1], [1, 2, 3]);
    for i in 2..256 {
        assert_eq!(cmap[i], [0, 0, 0]);
    }
}

#[test]
fn cmap_of_no_rows_is_black() {
    let cmap = get_cmap(&Vec::new());
    for i in 0..256 {
        assert_eq!(cmap[i], [0, 0, 0]);
    }
}

#[test]
fn cmap_clamps_channels() {
    let cmap = get_cmap(&vec![[-3, 300, 255]]);
    assert_eq!(cmap[0], [0, 255, 255]);
}

#[test]
fn cmap_rounds_scaled_channels() {
    let scaled: Vec<[i64; 3]> = vec![[
        (0.5f64 * 255.0).round() as i64,
        (0.25f64 * 255.0).round() as i64,
        (1.0f64 * 255.0).round() as i64,
    ]];
    assert_eq!(get_cmap(&scaled)[0], [128, 64, 255]);
}

#[test]
fn color_of_a_level_is_its_entry() {
    let cmap = ramp();
    assert_eq!(determine_color(0, &cmap), cmap[0]);
    assert_eq!(determine_color(77, &cmap), cmap[77]);
    assert_eq!(determine_color(255, &cmap), cmap[255]);
}

#[test]
fn color_clamps_the_level() {
    let cmap = ramp();
    assert_eq!(determine_color(-5, &cmap), cmap[0]);
    assert_eq!(determine_color(256, &cmap), cmap[255]);
    assert_eq!(determine_color(100_000, &cmap), cmap[255]);
}

#[test]
fn color_of_zero_is_the_midpoint() {
    let cmap = ramp();
    for range in [1.0e-9, 0.5, 1.0, 2.0, 1.0e12] {
        assert_eq!(level(0.0, 0.0, range), 128);
        assert_eq!(determine_color(level(0.0, 0.0, range), &cmap), cmap[128]);
    }
}

#[test]
fn color_of_the_peaks_is_the_ends_of_the_table() {
    let cmap = ramp();
    let max_abs = 0.37;
    assert_eq!(determine_color(level(max_abs, 0.0, 2.0 * max_abs), &cmap), cmap[255]);
    assert_eq!(determine_color(level(-max_abs, 0.0, 2.0 * max_abs), &cmap), cmap[0]);
}

#[test]
fn color_of_a_flat_frame_is_entry_zero() {
    let cmap = ramp();
    assert_eq!(determine_color(level(0.0, 0.0, 0.0), &cmap), cmap[0]);
}
