use txxxt::orient::orient_rgb;

/// A 2 x 3 picture whose pixel number `n` (row-major) has bytes 10n, 10n+1, 10n+2.
fn picture() -> Vec<u8> {
    (0..6u8).flat_map(|n| [10 * n, 10 * n + 1, 10 * n + 2]).collect()
}

fn pixel_numbers(rgb: &[u8]) -> Vec<u8> {
    rgb.chunks(3).map(|p| p[0] / 10).collect()
}

#[test]
fn quarter_turn_clockwise() {
    let (out, w, h) = orient_rgb(picture(), 2, 3, 90, false);
    assert_eq!((w, h), (3, 2));
    assert_eq!(pixel_numbers(&out), vec![4, 2, 0, 5, 3, 1]);
    assert_eq!(&out[0..3], &[40, 41, 42]);
}

#[test]
fn half_and_three_quarter_turns() {
    let (out, w, h) = orient_rgb(picture(), 2, 3, 180, false);
    assert_eq!((w, h), (2, 3));
    assert_eq!(pixel_numbers(&out), vec![5, 4, 3, 2, 1, 0]);
    let (out, w, h) = orient_rgb(picture(), 2, 3, 270, false);
    assert_eq!((w, h), (3, 2));
    assert_eq!(pixel_numbers(&out), vec![1, 3, 5, 0, 2, 4]);
}

#[test]
fn flip_and_turn_then_flip() {
    let (out, w, h) = orient_rgb(picture(), 2, 3, 0, true);
    assert_eq!((w, h), (2, 3));
    assert_eq!(pixel_numbers(&out), vec![1, 0, 3, 2, 5, 4]);
    let (out, w, h) = orient_rgb(picture(), 2, 3, 90, true);
    assert_eq!((w, h), (3, 2));
    assert_eq!(pixel_numbers(&out), vec![0, 2, 4, 1, 3, 5]);
}

#[test]
fn other_angles_leave_picture_alone() {
    let (out, w, h) = orient_rgb(picture(), 2, 3, 45, false);
    assert_eq!((w, h), (2, 3));
    assert_eq!(out, picture());
}
