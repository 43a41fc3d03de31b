use gas_law_sim::layout::{banner_padding, sampled_rows, section_rule_len, RULE_WIDTH};

#[test]
fn banner_padding_centres_title() {
    assert_eq!(RULE_WIDTH, 72);
    assert_eq!(banner_padding(0), 36);
    assert_eq!(banner_padding("GAS LAW SIMULATOR".len()), 27);
    assert_eq!(banner_padding(71), 0);
    assert_eq!(banner_padding(200), 0);
}

#[test]
fn section_rule_fills_heading() {
    assert_eq!(section_rule_len("Summary".len()), 47);
    assert_eq!(section_rule_len(54), 0);
    assert_eq!(section_rule_len(100), 0);
}

#[test]
fn sampled_rows_of_sweep_table() {
    // 61 rows cut down to about 14: every 4th row and the last.
    let rows = sampled_rows(61, 14);
    let expected: Vec<usize> = (0..61).filter(|i| i % 4 == 0 || *i == 60).collect();
    assert_eq!(rows, expected);
    assert_eq!(rows.first(), Some(&0));
    assert_eq!(rows.last(), Some(&60));
}

#[test]
fn sampled_rows_short_table_shows_all() {
    assert_eq!(sampled_rows(5, 12), vec![0, 1, 2, 3, 4]);
}

#[test]
fn sampled_rows_adds_last_row() {
    assert_eq!(sampled_rows(41, 12), vec![0, 3, 6, 9, 12, 15, 18, 21, 24, 27, 30, 33, 36, 39, 40]);
}

#[test]
fn sampled_rows_empty_table() {
    assert!(sampled_rows(0, 14).is_empty());
}
