use jma_radar_bridge::rle::run_length_decode;
use jma_radar_bridge::wire::signed_magnitude_i16;

#[test]
fn decodes_signed_magnitude() {
    assert_eq!(signed_magnitude_i16(0x0032), Some(50));
    assert_eq!(signed_magnitude_i16(0x8032), Some(-50));
    assert_eq!(signed_magnitude_i16(0xffff), None);
}

#[test]
fn decodes_jma_run_length_example() {
    let input: Vec<u8> = vec![3, 9, 12, 6, 4, 15, 2, 1, 0, 13, 12, 2, 3]
        .into_iter()
        .map(|n| n + 240)
        .collect();
    let expected: Vec<u16> = vec![
        3, 9, 9, 6, 4, 4, 4, 4, 4, 2, 1, 0, 0, 0, 0, 0, 0, 0, 0, 2, 3,
    ]
    .into_iter()
    .map(|n| n + 240)
    .collect();
    assert_eq!(
        run_length_decode(&input, 8, 250, expected.len()).unwrap(),
        expected
    );
}
