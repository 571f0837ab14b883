use txxxt::charsets::{charset_from_name, CharsetName};
use txxxt::audio::downmix_i16;
use txxxt::background::dilate_mask;
use txxxt::camera::generate_test_pattern;

fn grid(rows: &[&str]) -> Vec<bool> {
    rows.iter().flat_map(|r| r.chars().map(|c| c == '#')).collect()
}

#[test]
fn dilation_grows_square() {
    let mask = grid(&[".....", ".....", "..#..", ".....", "....."]);
    let out = dilate_mask(&mask, 5, 5, 1);
    assert_eq!(out, grid(&[".....", ".###.", ".###.", ".###.", "....."]));
    let out2 = dilate_mask(&mask, 5, 5, 2);
    assert!(out2.iter().all(|&b| b));
}

#[test]
fn dilation_clips_at_edges() {
    let mask = grid(&["#...", "....", "...."]);
    assert_eq!(dilate_mask(&mask, 4, 3, 1), grid(&["##..", "##..", "...."]));
    assert_eq!(dilate_mask(&mask, 4, 3, 0), mask);
    assert_eq!(dilate_mask(&mask, 4, 3, -1), vec![false; 12]);
}

#[test]
fn downmix_averages_frames() {
    assert_eq!(downmix_i16(&[1, 3, -4, -1, 10], 2), vec![2, -2, 5]);
    assert_eq!(downmix_i16(&[7, -7], 1), vec![7, -7]);
    assert_eq!(downmix_i16(&[32767, 32767, -32768, -32768], 2), vec![32767, -32768]);
    assert_eq!(downmix_i16(&[], 3), Vec::<i16>::new());
}

fn pixel(rgb: &[u8], w: u32, x: u32, y: u32) -> (u8, u8, u8) {
    let i = ((y * w + x) * 3) as usize;
    (rgb[i], rgb[i + 1], rgb[i + 2])
}

#[test]
fn test_pattern_bars_and_zones() {
    let rgb = generate_test_pattern(8, 2, 0);
    assert_eq!(rgb.len(), 48);
    assert_eq!(pixel(&rgb, 8, 0, 0), (0, 0, 0));
    // diagonal 6 gives 38, zone 2 is blue
    assert_eq!(pixel(&rgb, 8, 5, 1), (12, 9, 38));
    // frame 7 moves the bars and zones: diagonal 22 gives 140, zone 3 is purple
    let moved = generate_test_pattern(8, 2, 7);
    assert_eq!(pixel(&moved, 8, 1, 0), (140, 70, 140));
    // falling half of the bar: diagonal 60 gives 127, zone 0 is warm
    let falling = generate_test_pattern(8, 2, 20);
    assert_eq!(pixel(&falling, 8, 0, 0), (127, 42, 25));
}

#[test]
fn test_pattern_empty_frame() {
    assert!(generate_test_pattern(0, 5, 3).is_empty());
    assert!(generate_test_pattern(5, 0, 3).is_empty());
}

#[test]
fn mirror_flips_each_row() {
    let rgb: Vec<u8> = (1..=18).collect();
    let out = txxxt::render::mirror_rgb(&rgb, 3, 2);
    assert_eq!(
        out,
        vec![7, 8, 9, 4, 5, 6, 1, 2, 3, 16, 17, 18, 13, 14, 15, 10, 11, 12]
    );
    assert_eq!(txxxt::render::mirror_rgb(&out, 3, 2), rgb);
}

#[test]
fn charset_names_on_command_line() {
    assert_eq!(charset_from_name("hangul"), Some(CharsetName::Hangul));
    assert_eq!(charset_from_name("standard"), Some(CharsetName::Standard));
    assert_eq!(charset_from_name("한글"), None);
    assert_eq!(charset_from_name("Standard"), None);
}

#[test]
fn downmix_any_channel_count() {
    assert_eq!(downmix_i16(&[100, 200, -3, 4, -3, -4], 2), vec![150, 0, -3]);
    let wide = vec![-32768i16; 70000];
    assert_eq!(downmix_i16(&wide, 70000), vec![-32768]);
    let mixed: Vec<i16> = (0..70001).map(|i| if i % 2 == 0 { 32767 } else { 1 }).collect();
    let avg = ((35000i64 * 32767 + 35000) / 70000) as i16;
    assert_eq!(downmix_i16(&mixed, 70000), vec![avg, 0]);
}
