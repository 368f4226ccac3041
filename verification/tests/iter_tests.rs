use std::collections::HashMap;

use timed_drain::associate::MapUtils;
use timed_drain::counting::EachCount;

#[derive(Clone, Hash, PartialEq, Eq, Debug)]
struct Test {
    a: i64,
    b: u64,
}

#[test]
fn test_each_count() {
    let v = vec![1, 1, 1, 2, 3, 3, 3, 3];
    let v = v.each_count();

    assert_eq!(v, HashMap::from([(1, 3), (2, 1), (3, 4)]))
}

#[test]
fn test_each_count_by() {
    let v = vec![
        Test { a: 1, b: 1 },
        Test { a: 1, b: 2 },
        Test { a: 1, b: 2 },
        Test { a: 2, b: 1 },
        Test { a: 3, b: 1 },
        Test { a: 3, b: 2 },
        Test { a: 3, b: 2 },
        Test { a: 3, b: 2 },
    ];
    let x = v.clone().each_count();
    assert_eq!(
        x,
        HashMap::from([
            (Test { a: 3, b: 2 }, 3),
            (Test { a: 1, b: 2 }, 2),
            (Test { a: 1, b: 1 }, 1),
            (Test { a: 3, b: 1 }, 1),
            (Test { a: 2, b: 1 }, 1)
        ])
    );
    let v = v.each_count_by(|it| it.a);
    assert_eq!(v, HashMap::from([(1, 3), (2, 1), (3, 4)]))
}

#[test]
fn test_associate_to_map() {
    let v = vec![1, 2];
    let v = v.associate_to_map(|it| (it, it));
    assert_eq!(v, HashMap::from([(1, 1), (2, 2)]));
}

#[test]
fn test_associate_with_to_map() {
    let v = vec![1, 2];
    let v = v.associate_with_to_map(|it| it + 1);
    assert_eq!(v, HashMap::from([(1, 2), (2, 3)]))
}

#[test]
fn each_count_of_empty_collection_is_empty() {
    let v: Vec<u64> = Vec::new();
    assert_eq!(v.each_count(), HashMap::new());
}

#[test]
fn associate_to_map_keeps_the_last_value_of_a_repeated_key() {
    let v = vec![1, 2, 3];
    let m = v.associate_to_map(|it| (it % 2, it));
    assert_eq!(m, HashMap::from([(1, 3), (0, 2)]));
}
