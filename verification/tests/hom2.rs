use cart_prod::cursor::Cursor;
use cart_prod::specs::hom2fcartprod::Hom2FCartProd;

#[test]
fn test_next_empty() {
    let it1: Cursor<i32> = Cursor::new(vec![]);
    let it2 = Cursor::new(vec![0, 1]);
    let mut it = Hom2FCartProd::new(it1, it2);
    assert_eq!(it.next(), None);
}

#[test]
fn hom2fcartprod_test_size_hint_simple() {
    let it1 = Cursor::new(vec![0, 1]);
    let it2 = Cursor::new(vec![0, 1]);
    let it = Hom2FCartProd::new(it1, it2);
    assert_eq!(it.size_hint(), (4, Some(4)));
}

#[test]
fn hom2fcartprod_test_size_hint_empty() {
    let it1: Cursor<i32> = Cursor::new(vec![]);
    let it2 = Cursor::new(vec![0, 1]);
    let it = Hom2FCartProd::new(it1, it2);
    assert_eq!(it.size_hint(), (0, Some(0)));
}

#[test]
fn hom2_enumerates_in_order() {
    let it1 = Cursor::new(vec![0, 1]);
    let it2 = Cursor::new(vec![0, 1]);
    let mut it = Hom2FCartProd::new(it1, it2);
    assert_eq!(it.next(), Some([0, 0]));
    assert_eq!(it.next(), Some([0, 1]));
    assert_eq!(it.next(), Some([1, 0]));
    assert_eq!(it.next(), Some([1, 1]));
    assert_eq!(it.next(), None);
}

#[test]
fn hom2_empty_first_source_estimate() {
    let it1: Cursor<i32> = Cursor::new(vec![]);
    let it2 = Cursor::new(vec![0, 1]);
    let mut it = Hom2FCartProd::new(it1, it2);
    assert_eq!(it.size_hint(), (0, Some(0)));
    assert_eq!(it.next(), None);
}

#[test]
fn hom2_exhaustion_is_permanent() {
    let it1 = Cursor::new(vec![0]);
    let it2 = Cursor::new(vec![0, 1]);
    let mut it = Hom2FCartProd::new(it1, it2);
    assert_eq!(it.next(), Some([0, 0]));
    assert_eq!(it.next(), Some([0, 1]));
    for _ in 0..5 {
        assert_eq!(it.next(), None);
    }
}

#[test]
fn hom2_repeated_source_items_repeat_tuples() {
    let it1 = Cursor::new(vec![1]);
    let it2 = Cursor::new(vec![7, 7]);
    let mut it = Hom2FCartProd::new(it1, it2);
    assert_eq!(it.next(), Some([1, 7]));
    assert_eq!(it.next(), Some([1, 7]));
    assert_eq!(it.next(), None);

    let it1 = Cursor::new(vec![5, 5]);
    let it2 = Cursor::new(vec![0]);
    let mut it = Hom2FCartProd::new(it1, it2);
    assert_eq!(it.next(), Some([5, 0]));
    assert_eq!(it.next(), Some([5, 0]));
    assert_eq!(it.next(), None);
}

#[test]
fn hom2_cardinality_three_by_two() {
    let it1 = Cursor::new(vec![0, 1, 2]);
    let it2 = Cursor::new(vec![0, 1]);
    let mut it = Hom2FCartProd::new(it1, it2);
    let mut count: usize = 0;
    while let Some(_) = it.next() {
        count += 1;
    }
    assert_eq!(count, 6);
}

#[test]
fn hom2_size_hint_midstream_uses_live_cursors() {
    let it1 = Cursor::new(vec![0, 1]);
    let it2 = Cursor::new(vec![0, 1]);
    let mut it = Hom2FCartProd::new(it1, it2);
    assert_eq!(it.next(), Some([0, 0]));
    // Recomputed from the live cursors: two elements left at position 1,
    // one at position 2.
    assert_eq!(it.size_hint(), (2, Some(2)));
}
