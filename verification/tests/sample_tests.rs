use parq::sample::{sample_indexes, select_rows};

fn rows(values: &[&str]) -> Vec<Vec<String>> {
    values.iter().map(|v| vec![v.to_string()]).collect()
}

#[test]
fn test_sample_indexes_full_when_sample_covers_size() {
    let flags = sample_indexes(10, 10);
    assert_eq!(10, flags.len());
    assert!(flags.iter().all(|f| *f));

    let flags = sample_indexes(100, 3);
    assert_eq!(3, flags.len());
    assert!(flags.iter().all(|f| *f));
}

#[test]
fn test_sample_indexes_empty_when_sample_is_zero() {
    let flags = sample_indexes(0, 10);
    assert_eq!(10, flags.len());
    assert!(flags.iter().all(|f| !*f));
}

#[test]
fn test_sample_indexes_counts_marked() {
    let flags = sample_indexes(3, 10);
    assert_eq!(10, flags.len());
    assert_eq!(3, flags.iter().filter(|f| **f).count());
}

#[test]
fn test_select_rows_keeps_order() {
    let input = rows(&["a", "b", "c", "d"]);
    let flags = vec![true, false, true, false];

    let selected = select_rows(input, &flags);

    assert_eq!(rows(&["a", "c"]), selected);
}

#[test]
fn test_select_rows_all_and_none() {
    let input = rows(&["a", "b", "c"]);

    let all = select_rows(input.clone(), &vec![true, true, true]);
    assert_eq!(input, all);

    let none = select_rows(input.clone(), &vec![false, false, false]);
    assert!(none.is_empty());
}
