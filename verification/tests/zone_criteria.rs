use zone_sniper::DataSelector;

#[test]
fn top_n_picks_highest_first() {
    let data: Vec<i64> = vec![5, 9, 1, 7, 3];
    let sel = DataSelector::new(&data);
    assert_eq!(sel.select_top_n(3), vec![1, 3, 0]);
    assert_eq!(sel.select_top_n(0), Vec::<usize>::new());
    assert_eq!(sel.select_top_n(10), vec![1, 3, 0, 4, 2]);
}

#[test]
fn top_n_on_empty_series() {
    let data: Vec<i64> = Vec::new();
    assert!(DataSelector::new(&data).select_top_n(4).is_empty());
}

#[test]
fn top_n_leaves_out_only_lower_scores() {
    let data: Vec<i64> = vec![4, 4, 2, 4, 8];
    let picked = DataSelector::new(&data).select_top_n(2);
    assert_eq!(picked.len(), 2);
    assert_eq!(picked[0], 4);
    assert!(data[picked[1]] == 4);
    for j in 0..data.len() {
        if !picked.contains(&j) {
            assert!(picked.iter().all(|&i| data[j] <= data[i]));
        }
    }
}

#[test]
fn percentile_range_by_ranks() {
    // Rising order of the scores: indices 2, 4, 0, 3, 1.
    let data: Vec<i64> = vec![5, 9, 1, 7, 3];
    let sel = DataSelector::new(&data);
    assert_eq!(sel.select_percentile_range(0, 2), vec![2, 4]);
    assert_eq!(sel.select_percentile_range(2, 4), vec![0, 3]);
    assert_eq!(sel.select_percentile_range(4, 99), vec![1]);
    assert_eq!(sel.select_percentile_range(3, 3), Vec::<usize>::new());
    assert_eq!(sel.select_percentile_range(4, 1), Vec::<usize>::new());
}

#[test]
fn value_thresholds() {
    let data: Vec<i64> = vec![5, 9, 1, 7, 3];
    let sel = DataSelector::new(&data);
    assert_eq!(sel.select_above_value_threshold(5), vec![1, 3]);
    assert_eq!(sel.select_below_value_threshold(5), vec![2, 4]);
    assert_eq!(sel.select_between_values(3, 7), vec![0, 3, 4]);
    assert_eq!(sel.select_above_value_threshold(i64::MAX), Vec::<usize>::new());
    assert_eq!(sel.select_below_value_threshold(i64::MIN), Vec::<usize>::new());
}
