use eight_px_uint_eight::compute_eight_length;

#[test]
fn test_eight_width() {
    assert_eq!(1, compute_eight_length(7));
    assert_eq!(1, compute_eight_length(8));
    assert_eq!(2, compute_eight_length(9));
    assert_eq!(2, compute_eight_length(16));
    assert_eq!(3, compute_eight_length(17));
}
