use cart_prod::cursor::Cursor;
use cart_prod::specs::hom3fcartprod::Hom3FCartProd;

#[test]
fn test_simple() {
    let it1 = Cursor::new(vec![0, 1, 2, 3]);
    let it2 = Cursor::new(vec![0, 1, 2]);
    let it3 = Cursor::new(vec![0, 1]);
    let mut it = Hom3FCartProd::new(it1, it2, it3);
    assert_eq!(it.next(), Some([0, 0, 0]));
    assert_eq!(it.next(), Some([0, 0, 1]));
    assert_eq!(it.next(), Some([0, 1, 0]));
    assert_eq!(it.next(), Some([0, 1, 1]));
    assert_eq!(it.next(), Some([0, 2, 0]));
    assert_eq!(it.next(), Some([0, 2, 1]));
    assert_eq!(it.next(), Some([1, 0, 0]));
    assert_eq!(it.next(), Some([1, 0, 1]));
    assert_eq!(it.next(), Some([1, 1, 0]));
    assert_eq!(it.next(), Some([1, 1, 1]));
    assert_eq!(it.next(), Some([1, 2, 0]));
    assert_eq!(it.next(), Some([1, 2, 1]));
    assert_eq!(it.next(), Some([2, 0, 0]));
    assert_eq!(it.next(), Some([2, 0, 1]));
    assert_eq!(it.next(), Some([2, 1, 0]));
    assert_eq!(it.next(), Some([2, 1, 1]));
    assert_eq!(it.next(), Some([2, 2, 0]));
    assert_eq!(it.next(), Some([2, 2, 1]));
    assert_eq!(it.next(), Some([3, 0, 0]));
    assert_eq!(it.next(), Some([3, 0, 1]));
    assert_eq!(it.next(), Some([3, 1, 0]));
    assert_eq!(it.next(), Some([3, 1, 1]));
    assert_eq!(it.next(), Some([3, 2, 0]));
    assert_eq!(it.next(), Some([3, 2, 1]));
    assert_eq!(it.next(), None);
}

#[test]
fn test_empty() {
    let it1 = Cursor::new(vec![0, 1, 2, 3]);
    let it2 = Cursor::new(vec![0, 1, 2]);
    let it3: Cursor<i32> = Cursor::new(vec![]);
    let mut it = Hom3FCartProd::new(it1, it2, it3);
    assert_eq!(it.next(), None);
}

#[test]
fn hom3fcartprod_test_size_hint_simple() {
    let it1 = Cursor::new(vec![0, 1]);
    let it2 = Cursor::new(vec![0, 1]);
    let it3 = Cursor::new(vec![0, 1, 2]);
    let it = Hom3FCartProd::new(it1, it2, it3);
    assert_eq!(it.size_hint(), (12, Some(12)));
}

#[test]
fn hom3fcartprod_test_size_hint_empty() {
    let it1 = Cursor::new(vec![0, 1]);
    let it2 = Cursor::new(vec![0, 1]);
    let it3: Cursor<i32> = Cursor::new(vec![]);
    let it = Hom3FCartProd::new(it1, it2, it3);
    assert_eq!(it.size_hint(), (0, Some(0)));
}

#[test]
fn hom3_four_by_three_by_two_scenario() {
    let it1 = Cursor::new(vec![0, 1, 2, 3]);
    let it2 = Cursor::new(vec![0, 1, 2]);
    let it3 = Cursor::new(vec![0, 1]);
    let mut it = Hom3FCartProd::new(it1, it2, it3);
    assert_eq!(it.size_hint(), (24, Some(24)));
    let first = it.next();
    assert_eq!(first, Some([0, 0, 0]));
    let mut count: usize = 1;
    let mut last = first;
    while let Some(t) = it.next() {
        last = Some(t);
        count += 1;
    }
    assert_eq!(count, 24);
    assert_eq!(last, Some([3, 2, 1]));
}

#[test]
fn hom3_empty_middle_source_produces_nothing() {
    let it1 = Cursor::new(vec![0, 1]);
    let it2: Cursor<i32> = Cursor::new(vec![]);
    let it3 = Cursor::new(vec![0, 1]);
    let mut it = Hom3FCartProd::new(it1, it2, it3);
    assert_eq!(it.size_hint(), (0, Some(0)));
    assert_eq!(it.next(), None);
}

#[test]
fn hom3_exhaustion_is_permanent() {
    let it1 = Cursor::new(vec![0]);
    let it2 = Cursor::new(vec![0]);
    let it3 = Cursor::new(vec![0, 1]);
    let mut it = Hom3FCartProd::new(it1, it2, it3);
    assert_eq!(it.next(), Some([0, 0, 0]));
    assert_eq!(it.next(), Some([0, 0, 1]));
    for _ in 0..5 {
        assert_eq!(it.next(), None);
    }
}

#[test]
fn hom3_repeated_source_items_repeat_tuples() {
    let it1 = Cursor::new(vec![0]);
    let it2 = Cursor::new(vec![4, 4]);
    let it3 = Cursor::new(vec![9]);
    let mut it = Hom3FCartProd::new(it1, it2, it3);
    assert_eq!(it.next(), Some([0, 4, 9]));
    assert_eq!(it.next(), Some([0, 4, 9]));
    assert_eq!(it.next(), None);
}
