use ui_draw::raster::{blank_buffer, fill_buffer, GlyphSample};
use ui_draw::text::{UNIT, VIS_THRESHOLD};

fn sample(x: u32, y: u32, coverage: u32) -> GlyphSample {
    GlyphSample { x, y, coverage }
}

#[test]
fn full_coverage_writes_color_exactly() {
    let color = [UNIT, UNIT / 2, 0, UNIT];
    let samples = vec![sample(0, 0, UNIT)];
    let buf = fill_buffer(2, 2, color, &samples);
    assert_eq!(buf.len(), 16);
    assert_eq!(&buf[0..4], &[UNIT, UNIT / 2, 0, UNIT]);
    assert_eq!(&buf[4..16], &[0u32; 12]);
}

#[test]
fn alpha_scales_with_coverage() {
    let color = [UNIT, 0, 0, UNIT / 2];
    let samples = vec![sample(1, 1, UNIT / 2)];
    let buf = fill_buffer(2, 2, color, &samples);
    // Texel (1, 1) starts at value index (1 + 1 * 2) * 4 = 12.
    assert_eq!(&buf[12..16], &[UNIT, 0, 0, UNIT / 4]);
    assert_eq!(&buf[0..12], &[0u32; 12]);
}

#[test]
fn coverage_at_threshold_is_invisible() {
    let color = [UNIT, UNIT, UNIT, UNIT];
    let samples = vec![sample(0, 0, VIS_THRESHOLD)];
    let buf = fill_buffer(2, 2, color, &samples);
    assert_eq!(buf, vec![0u32; 16]);
}

#[test]
fn out_of_bounds_samples_are_dropped() {
    let color = [UNIT, UNIT, UNIT, UNIT];
    let samples = vec![sample(2, 0, UNIT), sample(0, 2, UNIT), sample(9, 9, UNIT)];
    let buf = fill_buffer(2, 2, color, &samples);
    assert_eq!(buf, vec![0u32; 16]);
}

#[test]
fn later_sample_overwrites_earlier_one() {
    let color = [UNIT, 0, UNIT, UNIT];
    let samples = vec![sample(0, 0, UNIT), sample(0, 0, UNIT / 4)];
    let buf = fill_buffer(1, 1, color, &samples);
    // The second sample's alpha replaces the first; nothing blends.
    assert_eq!(buf, vec![UNIT, 0, UNIT, UNIT / 4]);
}

#[test]
fn zero_size_buffers_are_valid() {
    let color = [UNIT, UNIT, UNIT, UNIT];
    let samples = vec![sample(0, 0, UNIT)];
    assert_eq!(fill_buffer(0, 0, color, &samples), Vec::<u32>::new());
    assert_eq!(fill_buffer(0, 5, color, &samples), Vec::<u32>::new());
    assert_eq!(blank_buffer(0, 0), Vec::<u32>::new());
}

#[test]
fn blank_buffer_is_all_zero() {
    assert_eq!(blank_buffer(2, 1), vec![0u32; 8]);
    assert_eq!(blank_buffer(3, 3), vec![0u32; 36]);
}
