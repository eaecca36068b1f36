use rpeg::array2::{Array2, Array2Error};

#[test]
fn new_fills_every_cell() {
    let a = Array2::new(3, 2, 9u8);
    assert_eq!((a.width, a.height), (3, 2));
    assert_eq!(a.data, vec![9u8; 6]);
    assert_eq!(a.get(2, 1), Some(&9));
    assert_eq!(a.get(3, 0), None);
    assert_eq!(a.get(0, 2), None);
}

#[test]
fn from_row_major_checks_the_count() {
    let a = Array2::from_row_major(3, 2, vec![1, 2, 3, 4, 5, 6]).unwrap();
    assert_eq!(a.get(0, 0), Some(&1));
    assert_eq!(a.get(2, 0), Some(&3));
    assert_eq!(a.get(0, 1), Some(&4));
    assert_eq!(a.get(2, 1), Some(&6));
    assert_eq!(
        Array2::from_row_major(3, 2, vec![1, 2, 3]).err(),
        Some(Array2Error::SizeMismatch)
    );
    assert_eq!(
        Array2::from_row_major(usize::MAX, 2, vec![1u8]).err(),
        Some(Array2Error::SizeMismatch)
    );
    assert!(Array2::<u8>::from_row_major(0, 5, vec![]).is_ok());
}

#[test]
fn set_then_get_reads_back_the_value() {
    let mut a = Array2::new(2, 2, 0i32);
    assert!(a.set(1, 0, 5));
    assert_eq!(a.get(1, 0), Some(&5));
    assert_eq!(a.data, vec![0, 5, 0, 0]);
    assert!(a.set(0, 1, -3));
    assert_eq!(a.data, vec![0, 5, -3, 0]);
}

#[test]
fn set_outside_changes_nothing() {
    let mut a = Array2::new(2, 2, 1u16);
    assert!(!a.set(2, 0, 5));
    assert!(!a.set(0, 2, 5));
    assert_eq!(a.data, vec![1, 1, 1, 1]);
}

#[test]
fn map_keeps_the_shape() {
    let a = Array2::from_row_major(2, 3, vec![1, 2, 3, 4, 5, 6]).unwrap();
    let b = a.map(|v: i32| v * 10);
    assert_eq!((b.width, b.height), (2, 3));
    assert_eq!(b.data, vec![10, 20, 30, 40, 50, 60]);
    assert_eq!(b.get(1, 2), Some(&60));
}
