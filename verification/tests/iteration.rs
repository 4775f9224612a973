use my_iterator::MyFromIterator;
use my_iterator::MyIterator;
use my_iterator::MyIteratorExt;
use my_iterator::MyMap;
use my_iterator::MyVecIterator;
use my_iterator::collect_into;

#[test]
fn test_if_works() {
    let mut vec = MyVecIterator {
        vec: &vec![1, 2, 3],
        current_index: 0,
    };
    assert_eq!(Some(&1), vec.next());
    assert_eq!(Some(&2), vec.next());
    assert_eq!(Some(&3), vec.next());
    assert_eq!(None, vec.next());
    assert_eq!(vec.vec, &vec![1, 2, 3]);

    while let Some(v) = vec.next() {
        println!("{}", v);
    }

    let mut vec: MyVecIterator<i32> = MyVecIterator {
        vec: &vec![],
        current_index: 0,
    };
    assert_eq!(None, vec.next());
    assert_eq!(vec.vec, &vec![]);

    let vec = vec![1, 2, 3];
    let mut iter = vec.my_iter();
    assert_eq!(Some(&1), iter.next());
    assert_eq!(Some(&2), iter.next());
    assert_eq!(Some(&3), iter.next());
    assert_eq!(None, iter.next());

    for item in iter.into_iter() {
        println!("{}", item);
    }

    let vec = vec![1, 2, 3];
    let mut iter = vec.my_iter().map(|x| x * 2);
    assert_eq!(Some(2), iter.next());
    assert_eq!(Some(4), iter.next());
    assert_eq!(Some(6), iter.next());
    assert_eq!(None, iter.next());

    let vec = vec![1, 2, 3];
    let iter = vec.my_iter().map(|x| x * 2).collect::<Vec<i32>>();
    assert_eq!(vec![2, 4, 6], iter);
}

#[test]
fn cursor_yields_each_element_then_exhausts() {
    let vec = vec![10, 20, 30, 40];
    let mut iter = vec.my_iter();
    assert_eq!(Some(&10), iter.next());
    assert_eq!(Some(&20), iter.next());
    assert_eq!(Some(&30), iter.next());
    assert_eq!(Some(&40), iter.next());
    assert_eq!(None, iter.next());
}

#[test]
fn cursor_over_empty_is_immediately_exhausted() {
    let vec: Vec<i32> = vec![];
    let mut iter = vec.my_iter();
    assert_eq!(None, iter.next());
}

#[test]
fn exhaustion_is_idempotent_for_cursor() {
    let vec = vec![7];
    let mut iter = vec.my_iter();
    assert_eq!(Some(&7), iter.next());
    for _ in 0..100 {
        assert_eq!(None, iter.next());
    }
}

#[test]
fn exhaustion_is_idempotent_for_map() {
    let vec = vec![7];
    let mut iter = vec.my_iter().map(|x| x + 1);
    assert_eq!(Some(8), iter.next());
    for _ in 0..100 {
        assert_eq!(None, iter.next());
    }
}

#[test]
fn map_applies_function_in_order() {
    let vec = vec![1, 2, 3];
    let mut iter = vec.my_iter().map(|x| x * 2);
    assert_eq!(Some(2), iter.next());
    assert_eq!(Some(4), iter.next());
    assert_eq!(Some(6), iter.next());
    assert_eq!(None, iter.next());
}

#[test]
fn map_can_change_the_element_type() {
    let vec = vec![1, 2];
    let mut iter = vec.my_iter().map(|x| format!("<{}>", x));
    assert_eq!(Some(String::from("<1>")), iter.next());
    assert_eq!(Some(String::from("<2>")), iter.next());
    assert_eq!(None, iter.next());
}

#[test]
fn map_then_collect_preserves_order() {
    let vec = vec![1, 2, 3];
    let collected = vec.my_iter().map(|x| x * 2).collect::<Vec<i32>>();
    assert_eq!(vec![2, 4, 6], collected);
}

#[test]
fn collect_of_empty_producer_is_empty() {
    let vec: Vec<i32> = vec![];
    let collected = vec.my_iter().map(|x| x * 2).collect::<Vec<i32>>();
    assert_eq!(Vec::<i32>::new(), collected);
}

#[test]
fn collect_into_builds_from_any_producer() {
    let vec = vec![5, 6];
    let collected: Vec<i32> = collect_into(vec.my_iter().map(|x| x - 5));
    assert_eq!(vec![0, 1], collected);
}

#[test]
fn from_iter_builds_in_production_order() {
    let vec = vec![3, 1, 2];
    let built = <Vec<i32> as MyFromIterator<i32>>::from_iter(vec.my_iter().map(|x| *x));
    assert_eq!(vec![3, 1, 2], built);
}

#[test]
fn my_map_new_wraps_producer_and_function() {
    let vec = vec![4];
    let mut adapter = MyMap::new(vec.my_iter(), |x: &i32| x * x);
    assert_eq!(Some(16), adapter.next());
    assert_eq!(None, adapter.next());
}

#[test]
fn into_iter_copies_the_whole_vector() {
    let vec = vec![1, 2, 3];
    let mut iter = vec.my_iter();
    assert_eq!(Some(&1), iter.next());
    let copy = iter.into_iter();
    assert_eq!(vec![1, 2, 3], copy);
}

#[test]
fn cursor_can_start_past_the_beginning() {
    let vec = vec![1, 2, 3];
    let mut iter = MyVecIterator {
        vec: &vec,
        current_index: 1,
    };
    assert_eq!(Some(&2), iter.next());
    assert_eq!(Some(&3), iter.next());
    assert_eq!(None, iter.next());
}
