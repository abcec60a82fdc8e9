use booktop::book::{Book, Read, Sorting};
use booktop::tags::TagSet;
use booktop::text::str_eq;
use std::cmp::Ordering;

fn book(title: &str, author: &str) -> Book {
    Book::new(title.to_string(), author.to_string())
}

#[test]
fn read_states_in_canonical_order() {
    assert_eq!(
        Read::all(),
        [Read::Read, Read::Reading, Read::Stopped, Read::Unread]
    );
}

#[test]
fn read_symbols() {
    assert_eq!(Read::Unread.symbol(), 'U');
    assert_eq!(Read::Reading.symbol(), 'R');
    assert_eq!(Read::Read.symbol(), 'F');
    assert_eq!(Read::Stopped.symbol(), 'S');
}

#[test]
fn read_names() {
    assert_eq!(Read::Read.to_string(), "Read");
    assert_eq!(Read::Reading.to_string(), "Reading");
    assert_eq!(Read::Stopped.to_string(), "Stopped");
    assert_eq!(Read::Unread.to_string(), "Unread");
}

#[test]
fn defaults() {
    assert_eq!(Read::default(), Read::Unread);
    assert_eq!(Sorting::default(), Sorting::Title);
    let b = Book::default();
    assert_eq!(b.title, "Title Unknown");
    assert_eq!(b.author, "Author Unknown");
    assert_eq!(b.read, Read::Unread);
    assert!(b.tags.is_empty());
}

#[test]
fn new_book_is_unread_and_has_no_tags() {
    let b = book("T", "A");
    assert_eq!(b.title, "T");
    assert_eq!(b.author, "A");
    assert_eq!(*b.read_state(), Read::Unread);
    assert_eq!(b.tags.len(), 0);
}

#[test]
fn reading_state_changes() {
    let mut b = book("T", "A");
    b.start();
    assert_eq!(*b.read_state(), Read::Reading);
    b.finish();
    assert_eq!(*b.read_state(), Read::Read);
    b.stop();
    assert_eq!(*b.read_state(), Read::Stopped);
    b.reset();
    assert_eq!(*b.read_state(), Read::Unread);
    assert_eq!(b.title, "T");
    assert_eq!(b.author, "A");
}

#[test]
fn tag_and_untag() {
    let mut b = book("T", "A");
    assert!(!b.contains_tag("x"));
    assert!(b.tag("x"));
    assert!(!b.tag("x"));
    assert!(b.tag("y"));
    assert!(b.contains_tag("x"));
    assert!(b.contains_tag("y"));
    assert!(!b.contains_tag("X"));
    assert_eq!(b.tags.len(), 2);
    assert!(b.untag("x"));
    assert!(!b.untag("x"));
    assert!(!b.contains_tag("x"));
    assert!(b.contains_tag("y"));
    assert_eq!(b.tags.to_vec(), vec!["y"]);
}

#[test]
fn cmp_by_orders_by_code_point() {
    let a = book("Great Expectations", "Charles Dickens");
    let b = book("Journey to the Center of the Earth", "Jules Verne");
    assert_eq!(a.cmp_by(&b, &Sorting::Title), Ordering::Less);
    assert_eq!(b.cmp_by(&a, &Sorting::Title), Ordering::Greater);
    assert_eq!(a.cmp_by(&a, &Sorting::Title), Ordering::Equal);
    assert_eq!(a.cmp_by(&b, &Sorting::Author), Ordering::Less);

    let x = book("b", "Zed");
    let y = book("B", "abe");
    assert_eq!(x.cmp_by(&y, &Sorting::Title), Ordering::Greater);
    assert_eq!(x.cmp_by(&y, &Sorting::Author), Ordering::Less);
    assert!(x.sorts_before(&y, &Sorting::Author));
    assert!(!x.sorts_before(&y, &Sorting::Title));
    assert!(!x.sorts_before(&x, &Sorting::Title));

    let short = book("ab", "A");
    let long = book("abc", "A");
    assert_eq!(short.cmp_by(&long, &Sorting::Title), Ordering::Less);
    assert_eq!(short.cmp_by(&long, &Sorting::Author), Ordering::Equal);
    let accent = book("\u{e9}", "A");
    let zed = book("z", "A");
    assert_eq!(zed.cmp_by(&accent, &Sorting::Title), Ordering::Less);
}

#[test]
fn books_are_equal_when_they_say_the_same() {
    let mut a = book("T", "A");
    let mut b = book("T", "A");
    a.tag("x");
    a.tag("y");
    b.tag("y");
    b.tag("x");
    assert_eq!(a, b);
    assert_eq!(a.clone(), a);
    b.untag("x");
    assert_ne!(a, b);
    b.tag("z");
    assert_ne!(a, b);
    let mut c = a.clone();
    c.start();
    assert_ne!(a, c);
    assert_ne!(book("T", "A"), book("T", "B"));
    assert_ne!(book("T", "A"), book("U", "A"));
}

#[test]
fn tag_sets() {
    let mut s = TagSet::new();
    assert!(s.is_empty());
    assert!(s.insert("b".to_string()));
    assert!(s.insert("a".to_string()));
    assert!(!s.insert("b".to_string()));
    assert_eq!(s.len(), 2);
    assert_eq!(s.to_vec(), vec!["b", "a"]);
    let t = TagSet::from_vec(vec![
        "a".to_string(),
        "b".to_string(),
        "a".to_string(),
    ]);
    assert_eq!(t.to_vec(), vec!["a", "b"]);
    assert_eq!(s, t);
    let mut u = TagSet::default();
    u.extend(&s);
    u.extend(&TagSet::from_vec(vec!["c".to_string(), "a".to_string()]));
    assert_eq!(u.to_vec(), vec!["b", "a", "c"]);
    assert_ne!(u, s);
    assert!(u.remove("a"));
    assert!(!u.remove("a"));
    assert!(!u.contains("a"));
    assert!(u.contains("c"));
    assert_eq!(u.clone(), u);
}

#[test]
fn str_eq_compares_the_texts() {
    assert!(str_eq("", ""));
    assert!(str_eq("abc", "abc"));
    assert!(!str_eq("abc", "abd"));
    assert!(!str_eq("abc", "ab"));
    assert!(!str_eq("abc", "ABC"));
    assert!(str_eq("\u{e9}t\u{e9}", "\u{e9}t\u{e9}"));
    assert!(!str_eq("\u{e9}", "e"));
}
