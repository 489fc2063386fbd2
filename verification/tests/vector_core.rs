use orml::vector::typedefs::{Vec3Bool, Vec3i32};
use orml::vector::Vector;
use std::cmp::Ordering;

#[test]
fn new() {
    let i1: Vector<i32, 64> = Vector::new();
    let i2 = Vector::from_array([Default::default(); 64]);
    assert_eq!(i1, i2);

    let f1: Vector<f64, 64> = Vector::new();
    let f2 = Vector::from_array([Default::default(); 64]);
    assert_eq!(f1, f2);
}

#[test]
fn new_works_for_elements_that_cannot_be_copied() {
    let v: Vector<String, 3> = Vector::new();
    assert_eq!(v.to_array(), [String::new(), String::new(), String::new()]);
    let d: Vector<i32, 4> = Default::default();
    assert_eq!(d.to_array(), [0, 0, 0, 0]);
}

#[test]
fn clone() {
    let a = Vector::from_array([1, 1, 1]);

    assert_eq!(a, a.clone());
}

#[test]
fn len_is_the_dimension() {
    let a: Vector<i32, 5> = Vector::new();
    assert_eq!(a.len(), 5);
    assert!(!a.is_empty());
    let b: Vector<i32, 0> = Vector::new();
    assert_eq!(b.len(), 0);
    assert!(b.is_empty());
}

#[test]
fn arrays_go_in_and_out_unchanged() {
    let a = Vector::from_array([7, 8, 9]);
    assert_eq!(a.to_array(), [7, 8, 9]);
    let b: Vector<i32, 3> = [7, 8, 9].into();
    assert_eq!(a, b);
}

#[test]
fn index_valid_index() {
    let mut vec: Vec3i32 = Vector::new();
    for i in 0..3 {
        vec[i] = i as i32;
    }

    for i in 0..3 {
        assert_eq!(vec[i], i as i32);
    }
}

#[test]
fn vector_valid_index() {
    const SIZE: usize = 3;
    let mut vec: Vector<usize, SIZE> = Vector::new();
    for i in 0..SIZE {
        vec[i] = i;
    }

    for i in 0..SIZE {
        assert_eq!(vec[i], i);
    }
}

#[test]
fn mutation() {
    let mut vec: Vec3i32 = Vector::new();
    let expected: Vec3i32 = [0, 5, 0].into();

    for i in 0..3 {
        vec[i] = i as i32;
    }

    vec[1] = 5;
    vec[2] = 0;

    for i in 0..3 {
        assert_eq!(vec[i], expected[i]);
    }
}

#[test]
fn iter() {
    let vec: Vec3i32 = [1, 1, 1].into();
    for e in vec {
        assert_eq!(e, 1);
    }
}

#[test]
fn iter_mut() {
    let mut vec: Vec3i32 = [0, 0, 0].into();
    for e in &mut vec {
        *e = 1;
    }

    for e in vec {
        assert_eq!(e, 1);
    }
}

#[test]
fn iter_ref() {
    let vec: Vec3i32 = [1, 1, 1].into();
    for e in &vec {
        assert_eq!(*e, 1);
    }
}

#[test]
fn iterators_go_from_the_first_index_upward() {
    let mut vec: Vec3i32 = [4, 5, 6].into();
    let seen: Vec<i32> = vec.iter().copied().collect();
    assert_eq!(seen, vec![4, 5, 6]);
    for e in vec.iter_mut() {
        *e += 10;
    }
    let owned: Vec<i32> = vec.into_iter().collect();
    assert_eq!(owned, vec![14, 15, 16]);
}

#[test]
fn partial_eq() {
    let combos: [Vec3Bool; 8] = [
        [false, false, false].into(),
        [false, false, true].into(),
        [false, true, false].into(),
        [false, true, true].into(),
        [true, false, false].into(),
        [true, false, true].into(),
        [true, true, false].into(),
        [true, true, true].into(),
    ];

    for i in 0..combos.len() {
        for j in 0..combos.len() {
            assert_eq!(
                combos[i] == combos[j],
                i == j,
                "\n\ti: {:?} j: {:?}",
                combos[i],
                combos[j]
            );
        }
    }
}

#[test]
fn partial_ord() {
    let mut count = 0;
    let combos: Vec<Vec3i32> = Vec::with_capacity(3)
        .into_iter()
        .map(|_: Vec3i32| {
            let temp = [count, count, count].into();
            count += 1;
            temp
        })
        .collect();

    for i in 0..combos.len() {
        for j in 0..combos.len() {
            assert_eq!(
                combos[i].partial_cmp(&combos[j]) == Some(Ordering::Less),
                i < j,
                "\n\ti: {:?} < j: {:?}",
                combos[i],
                combos[j]
            );
            assert_eq!(
                matches!(
                    combos[i].partial_cmp(&combos[j]),
                    Some(Ordering::Less | Ordering::Equal)
                ),
                i <= j,
                "\n\ti: {:?} <= j: {:?}",
                combos[i],
                combos[j]
            );
            assert_eq!(
                combos[i].partial_cmp(&combos[j]) == Some(Ordering::Greater),
                i > j,
                "\n\ti: {:?} < j: {:?}",
                combos[i],
                combos[j]
            );
            assert_eq!(
                matches!(
                    combos[i].partial_cmp(&combos[j]),
                    Some(Ordering::Greater | Ordering::Equal)
                ),
                i >= j,
                "\n\ti: {:?} >= j: {:?}",
                combos[i],
                combos[j]
            );
        }
    }
}

#[test]
fn ord() {
    let mut count = 0;
    let combos: Vec<Vec3i32> = Vec::with_capacity(3)
        .into_iter()
        .map(|_: Vec3i32| {
            let temp = [count, count, count].into();
            count += 1;
            temp
        })
        .collect();

    for i in 0..combos.len() {
        for j in 0..combos.len() {
            assert_eq!(
                combos[i].max(combos[j]),
                combos[i.max(j)],
                "\n\ti: {:?} max() j: {:?}",
                combos[i],
                combos[j]
            );
            assert_eq!(
                combos[i].min(combos[j]),
                combos[i.min(j)],
                "\n\ti: {:?} min() j: {:?}",
                combos[i],
                combos[j]
            );
        }
    }
}

#[test]
fn vectors_are_ordered_by_the_square_of_their_length() {
    let combos: [Vec3i32; 3] = [[0, 0, 0].into(), [1, 1, 1].into(), [2, 2, 2].into()];

    for i in 0..combos.len() {
        for j in 0..combos.len() {
            assert_eq!(combos[i].partial_cmp(&combos[j]), Some(i.cmp(&j)));
            assert_eq!(combos[i].cmp(&combos[j]), i.cmp(&j));
            assert_eq!(combos[i].max(combos[j]), combos[i.max(j)]);
            assert_eq!(combos[i].min(combos[j]), combos[i.min(j)]);
        }
    }
}

#[test]
fn vectors_of_one_length_compare_equal() {
    let a: Vec3i32 = [3, -4, 0].into();
    let b: Vec3i32 = [0, 5, 0].into();
    assert_eq!(a.cmp(&b), Ordering::Equal);
    assert_eq!(a.partial_cmp(&b), Some(Ordering::Equal));
    assert_eq!(a.max(b), b);
    assert_eq!(a.min(b), a);
    assert_ne!(a, b);
}

#[test]
fn a_vector_as_text() {
    let v: Vec3i32 = [1, -2, 3].into();
    assert_eq!(v.to_string(), "[ 1, -2, 3, ]");
    let e: Vector<i32, 0> = [].into();
    assert_eq!(e.to_string(), "[ ]");
    let w: Vector<&str, 2> = ["a b", ""].into();
    assert_eq!(w.to_string(), "[ a b, , ]");
}

#[test]
#[should_panic]
fn index_invalid_index() {
    let mut vec: Vec3i32 = Vector::new();
    for i in 0..3 {
        vec[4] = i;
    }

    for i in 0..3 {
        assert_eq!(vec[4], i);
    }
}

#[test]
#[should_panic]
fn vector_invalid_index() {
    const SIZE: usize = 3;
    let mut vec: Vector<usize, SIZE> = Vector::new();
    for i in 0..SIZE {
        vec[4] = i;
    }

    for i in 0..SIZE {
        assert_eq!(vec[4], i);
    }
}
