use rawhip::{ceil_div, xq_words};

#[test]
fn division_rounds_up() {
    assert_eq!(ceil_div(0, 7), 0);
    assert_eq!(ceil_div(7, 7), 1);
    assert_eq!(ceil_div(8, 7), 2);
}

#[test]
fn quantised_rows_hold_values_scales_and_sums() {
    assert_eq!(xq_words(256), 64 + 8 + 16);
    assert_eq!(xq_words(31), 7 + 0 + 1);
}
