use rust_tc::util::coeff_pos;

#[test]
fn test_coeff_pos() {
    let mut i = 0;
    let mut j = 0;
    for n in 0..100 {
        assert_eq!(Some(n), coeff_pos(i, j));
        if i >= j {
            j += 1;
            i = 0;
        } else {
            i += 1;
        }
    }
    let too_large = 1 << (0usize.count_zeros() / 2);
    assert_eq!(None, coeff_pos(0, too_large));
}
