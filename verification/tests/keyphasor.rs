use vibrometer::keyphasor::first_kp_in_block;
use vibrometer::types::SampleIndex;

#[test]
fn test_first_kp_in_block() {
    let kp = vec![10, 50, 90, 130, 170];
    assert_eq!(first_kp_in_block(40, 60, &kp), Some(SampleIndex(10)));
    assert_eq!(first_kp_in_block(200, 60, &kp), None);
    assert_eq!(first_kp_in_block(0, 20, &kp), Some(SampleIndex(10)));
}
