use rustlab::heap::MaxHeap;

#[test]
fn test_sort_heap() {
    let mut array = [9, 5, 2, 3, 1, 7];
    let mut heap = MaxHeap::new(&mut array);

    let slice = heap.sort();

    assert_eq!(slice, &[1, 2, 3, 5, 7, 9]);
}

#[test]
fn sort_small_and_repeated() {
    let mut empty: [i32; 0] = [];
    assert_eq!(MaxHeap::new(&mut empty).sort(), &[] as &[i32]);
    let mut one = [4];
    assert_eq!(MaxHeap::new(&mut one).sort(), &[4]);
    let mut two = [4, -4];
    assert_eq!(MaxHeap::new(&mut two).sort(), &[-4, 4]);
    let mut many = [3, -1, 3, i32::MIN, i32::MAX, 0, 3];
    let mut heap = MaxHeap::new(&mut many);
    assert_eq!(heap.len(), 7);
    assert_eq!(heap.sort(), &[i32::MIN, -1, 0, 3, 3, 3, i32::MAX]);
}

#[test]
fn the_callers_array_ends_sorted() {
    let mut array = [3, 1, 2, -7, 3];
    {
        let mut heap = MaxHeap::new(&mut array);
        heap.sort();
    }
    assert_eq!(array, [-7, 1, 2, 3, 3]);
}
