use tarssh::retain_unordered::RetainUnordered;

fn prop_retain_unordered_holds(test: Vec<u32>, cutoff: u32) -> bool {
    let mut expected = test.clone();
    expected.retain(|i| *i < cutoff);
    expected.sort_unstable();

    let mut test = test;
    test.retain_unordered(|i| *i < cutoff);
    test.sort_unstable();

    test == expected
}

#[test]
fn prop_retain_unordered() {
    quickcheck::quickcheck(prop_retain_unordered_holds as fn(Vec<u32>, u32) -> bool);
}

#[test]
fn retain_unordered_keeps_what_is_accepted() {
    let mut v = vec![1u32, 9, 2, 8, 3, 7];
    v.retain_unordered(|i| *i < 5);
    v.sort_unstable();
    assert_eq!(v, vec![1, 2, 3]);
}

#[test]
fn retain_unordered_on_empty_and_single() {
    let mut none: Vec<u32> = Vec::new();
    none.retain_unordered(|_| false);
    assert!(none.is_empty());
    let mut one = vec![4u32];
    one.retain_unordered(|i| *i == 4);
    assert_eq!(one, vec![4]);
    one.retain_unordered(|i| *i != 4);
    assert!(one.is_empty());
}

#[test]
fn retain_unordered_all_or_nothing() {
    let mut v: Vec<u32> = (0..100).collect();
    v.retain_unordered(|_| true);
    assert_eq!(v, (0..100).collect::<Vec<u32>>());
    v.retain_unordered(|_| false);
    assert!(v.is_empty());
}

#[test]
fn retain_unordered_keeps_duplicates() {
    let mut v = vec![3u32, 3, 5, 3, 5, 1];
    v.retain_unordered(|i| *i == 3);
    assert_eq!(v, vec![3, 3, 3]);
}

#[test]
fn retain_unordered_visits_every_item_once() {
    let mut v: Vec<u32> = (0..50).collect();
    let mut seen: Vec<u32> = Vec::new();
    v.retain_unordered(|i| {
        seen.push(*i);
        *i % 3 != 0
    });
    seen.sort_unstable();
    assert_eq!(seen, (0..50).collect::<Vec<u32>>());
    v.sort_unstable();
    assert_eq!(v, (0..50).filter(|i| i % 3 != 0).collect::<Vec<u32>>());
}

#[test]
fn retain_unordered_keeps_what_the_predicate_changed() {
    let mut v = vec![1u32, 2, 3, 4];
    v.retain_unordered(|i| {
        *i *= 3;
        *i % 2 == 0
    });
    v.sort_unstable();
    assert_eq!(v, vec![6, 12]);
}

#[test]
fn retain_unordered_kept_prefix_stays_in_order() {
    let mut v = vec![1u32, 2, 3, 100, 4];
    v.retain_unordered(|i| *i < 50);
    assert_eq!(v, vec![1, 2, 3, 4]);
}
