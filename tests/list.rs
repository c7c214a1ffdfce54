use ekvm::list::{AsList, Head, List, Tail};
use ekvm::string_view::StringView;

#[test]
fn list_from_keeps_order() {
    let l = List::from(vec![1, 2, 3]);
    assert_eq!(l.as_vec(), vec![1, 2, 3]);
    assert_eq!(l.at(0), 1);
    assert_eq!(l.at(2), 3);
    assert_eq!(l.last(), 3);
}

#[test]
fn list_from_single_and_empty() {
    let l = List::from(vec!['x']);
    assert_eq!(l, List::Mems('x', Box::new(List::Null)));
    let e: List<u8> = List::from(vec![]);
    assert_eq!(e, List::Null);
    assert_eq!(e.as_vec(), Vec::<u8>::new());
}

#[test]
fn head_and_tail() {
    let l = vec![1, 2, 3, 4, 5, 6].as_list();
    assert_eq!(l.head(), Some(1));
    let t = l.tail().unwrap();
    assert_eq!(t.as_vec(), vec![2, 3, 4, 5, 6]);
    let n: List<i32> = List::Null;
    assert_eq!(n.head(), None);
    assert!(n.tail().is_none());
}

#[test]
fn clone_is_equal() {
    let l = List::from(vec![String::from("a"), String::from("b")]);
    let c = l.clone();
    assert_eq!(c, l);
    assert_eq!(c.last(), "b");
}

#[test]
fn string_view_from() {
    let v = StringView::from(String::from("hello"));
    assert_eq!(v.size(), 5);
    assert_eq!(v.head(), Some('h'));
    assert_eq!(v.tail().unwrap().as_vec(), vec!['e', 'l', 'l', 'o']);
}

#[test]
fn string_view_counts_bytes() {
    let v = StringView::from(String::from("héé"));
    assert_eq!(v.size(), 5);
    assert_eq!(v.tail().unwrap().as_vec(), vec!['é', 'é']);
}

#[test]
fn string_view_new_is_empty() {
    let v = StringView::new();
    assert_eq!(v.size(), 0);
    assert_eq!(v.head(), None);
    assert!(v.tail().is_none());
    assert_eq!(v, StringView::new());
}

#[test]
fn string_as_list() {
    let l = String::from("hey").as_list();
    assert_eq!(l.as_vec(), vec!['h', 'e', 'y']);
}
