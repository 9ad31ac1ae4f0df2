use utils_box::debug::{idx_padding, vector_display, vector_display_bits, IdxMode};

#[test]
fn index_padding_counts_digits() {
    assert_eq!(idx_padding(0), 1);
    assert_eq!(idx_padding(9), 1);
    assert_eq!(idx_padding(10), 2);
    assert_eq!(idx_padding(1000), 4);
}

#[test]
fn vector_lines_align_indices() {
    let data: Vec<String> = (0..10).map(|i| format!("v{}", i)).collect();
    let lines = vector_display(&data, "x", IdxMode::Based0);
    assert_eq!(lines.len(), 10);
    assert_eq!(lines[0], "x[ 0] = v0");
    assert_eq!(lines[9], "x[ 9] = v9");
    let lines = vector_display(&data, "x", IdxMode::Based1);
    assert_eq!(lines[9], "x[10] = v9");
}

#[test]
fn bit_lines_are_zero_padded() {
    let lines = vector_display_bits(&[5, 0, 255], "b", 8, IdxMode::Based0);
    assert_eq!(lines, vec!["b[0] = 00000101", "b[1] = 00000000", "b[2] = 11111111"]);
    let lines = vector_display_bits(&[5], "b", 2, IdxMode::Based1);
    assert_eq!(lines, vec!["b[1] = 101"]);
}
