use image_go_nord::utils::delta;

#[test]
fn test_delta_overflow_3() {
    assert!(delta(&[u8::MAX; 3], &[0; 3]) < i32::MAX)
}

#[test]
fn test_delta_overflow_max() {
    const LEN: usize = 33025;
    assert!(delta(&[u8::MAX; LEN], &[0; LEN]) < i32::MAX)
}

#[test]
fn delta_of_extreme_colors() {
    assert_eq!(delta(&[255, 255, 255], &[0, 0, 0]), 195075);
}

#[test]
fn delta_uses_shorter_slice() {
    let a = [173, 87, 119, 255];
    let b = [0, 255, 255];
    assert_eq!(delta(&a, &b), 76649);
}

#[test]
fn delta_is_symmetric_and_zero_on_itself() {
    let a = [12, 200, 7];
    let b = [250, 3, 99];
    assert_eq!(delta(&a, &b), delta(&b, &a));
    assert_eq!(delta(&a, &a), 0);
    assert_eq!(delta(&b, &b), 0);
}

#[test]
fn delta_of_empty_is_zero() {
    assert_eq!(delta(&[], &[1, 2, 3]), 0);
}

#[test]
fn delta_ignores_alpha() {
    assert_eq!(delta(&[255, 255, 255, 255], &[0, 0, 0, 0]), 195075);
    assert_eq!(delta(&[0, 0, 0, 0], &[0, 0, 0, 255]), 0);
    assert_eq!(delta(&[0, 0, 0, 0], &[0, 0, 0, 1]), 0);
    assert_eq!(delta(&[1, 2, 3, 9], &[1, 2, 5, 200]), 4);
}

#[test]
fn delta_on_long_slices_counts_three_channels() {
    assert_eq!(delta(&[255; 40000], &[0; 40000]), 195075);
}
