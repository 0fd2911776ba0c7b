use asap_core::select::{argmax_first, lower_pairs};

#[test]
fn argmax_empty_is_none() {
    let keys: Vec<u64> = Vec::new();
    assert_eq!(argmax_first(&keys), None);
}

#[test]
fn argmax_picks_maximum() {
    let keys = vec![3, 9, 2, 7];
    assert_eq!(argmax_first(&keys), Some(1));
}

#[test]
fn argmax_breaks_ties_first_seen() {
    let keys = vec![1, 8, 8, 8, 2];
    assert_eq!(argmax_first(&keys), Some(1));
    let all_equal = vec![5, 5, 5];
    assert_eq!(argmax_first(&all_equal), Some(0));
}

#[test]
fn argmax_is_deterministic() {
    let keys = vec![4, 4, 6, 6, 1];
    let first = argmax_first(&keys);
    let second = argmax_first(&keys);
    assert_eq!(first, second);
    assert_eq!(first, Some(2));
}

#[test]
fn lower_pairs_enumerates_lower_triangle() {
    assert_eq!(lower_pairs(0), Vec::<(usize, usize)>::new());
    assert_eq!(lower_pairs(1), Vec::<(usize, usize)>::new());
    assert_eq!(lower_pairs(2), vec![(1, 0)]);
    assert_eq!(lower_pairs(4), vec![(1, 0), (2, 0), (2, 1), (3, 0), (3, 1), (3, 2)]);
}
