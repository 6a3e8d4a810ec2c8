use rustlab::counting_sort::{sort, LazyCountingSort};

#[test]
fn lib_it_works() {
    assert_eq!(2 + 2, 4);
}

#[test]
fn counting_sort_orders_values() {
    assert_eq!(sort(&[3, 0, 2, 3, 1], 4), vec![0, 1, 2, 3, 3]);
    assert_eq!(sort(&[], 0), Vec::<i32>::new());
}

#[test]
fn lazy_values_come_one_at_a_time() {
    let array = [2, 0, 2];
    let mut values = LazyCountingSort::new(&array, 3);
    assert_eq!(values.next(), Some(0));
    assert_eq!(values.next(), Some(2));
    assert_eq!(values.next(), Some(2));
    assert_eq!(values.next(), None);
    assert_eq!(values.next(), None);
}
