use somafm_scraper::youtube::{TupleHash, TupleVec};
use std::collections::HashMap;

fn sample() -> HashMap<&'static str, i32> {
    HashMap::<&str, i32>::from([
        ("a", 1),
        ("b", 2),
        ("c", 3),
        ("d", 4),
        ("e", 5),
        ("f", 6),
        ("g", 7),
        ("h", 8),
    ])
}

#[test]
fn youtube_test_01() {
    println!("Hello youtube test!");

    assert!(true)
}

#[test]
fn test_02_try_from_with_map() {
    let input = sample();

    let res = TupleVec::<i32>::try_from(input).unwrap();
    println!("Result: {:#?}", res);

    let mut values = res.0.clone();
    values.sort();
    assert_eq!(values, vec![1, 2, 3, 4, 5, 6, 7, 8]);
}

#[test]
fn test_03_try_from_with_fold() {
    let input = sample();

    let res = TupleHash::<String, u32>::try_from(input).unwrap();
    println!("Result: {:#?}", res);

    assert_eq!(res.0.len(), 8);
    assert_eq!(res.0.get("a"), Some(&1));
    assert_eq!(res.0.get("h"), Some(&8));
}

#[test]
fn empty_map_converts_to_empty_containers() {
    assert_eq!(TupleVec::<i32>::try_from(HashMap::new()).unwrap().0, Vec::<i32>::new());
    assert!(TupleHash::<String, u32>::try_from(HashMap::new()).unwrap().0.is_empty());
}

#[test]
fn negative_values_wrap_when_cast() {
    let res = TupleHash::<String, u32>::try_from(HashMap::from([("x", -1), ("y", 0)])).unwrap();
    assert_eq!(res.0.get("x"), Some(&u32::MAX));
    assert_eq!(res.0.get("y"), Some(&0));
}
