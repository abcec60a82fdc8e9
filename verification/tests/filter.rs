use booktop::book::{Book, Read};
use booktop::filter::Filter;

fn book(title: &str, author: &str, read: Read, tags: &[&str]) -> Book {
    let mut b = Book::new(title.to_string(), author.to_string());
    b.read = read;
    for t in tags {
        b.tag(t);
    }
    b
}

fn filter(authors: &[&str], read: &[Read], tags: &[&str]) -> Filter {
    Filter {
        author_match: authors.iter().map(|a| a.to_string()).collect(),
        read_match: read.to_vec(),
        tag_match: tags.iter().map(|t| t.to_string()).collect(),
    }
}

#[test]
fn empty_filter_matches_every_book() {
    let f = filter(&[], &[], &[]);
    assert!(f.match_book(&book("T", "A", Read::Unread, &[])));
    assert!(f.match_book(&book("", "", Read::Stopped, &["x", "y"])));
    assert!(f.match_book(&Book::default()));
}

#[test]
fn author_must_be_among_the_chosen() {
    let f = filter(&["Jules Verne", "austen"], &[], &[]);
    assert!(f.match_book(&book("T", "Jules Verne", Read::Unread, &[])));
    assert!(f.match_book(&book("T", "austen", Read::Unread, &[])));
    assert!(!f.match_book(&book("T", "jules verne", Read::Unread, &[])));
    assert!(!f.match_book(&book("T", "JULES VERNE", Read::Unread, &[])));
    assert!(!f.match_book(&book("T", "Austen", Read::Unread, &[])));
    assert!(!f.match_book(&book("T", "Jules Vern", Read::Unread, &[])));
    assert!(!f.match_book(&book("T", "Jules Verne ", Read::Unread, &[])));
    assert!(!f.match_book(&book("T", "Charles Dickens", Read::Unread, &[])));
    assert!(!f.match_book(&book("T", "", Read::Unread, &[])));
    let lower = filter(&["j"], &[], &[]);
    assert!(lower.match_book(&book("T", "j", Read::Unread, &[])));
    assert!(!lower.match_book(&book("T", "J", Read::Unread, &[])));
    let accented = filter(&["\u{c9}mile"], &[], &[]);
    assert!(accented.match_book(&book("T", "\u{c9}mile", Read::Unread, &[])));
    assert!(!accented.match_book(&book("T", "\u{e9}mile", Read::Unread, &[])));
    assert!(!accented.match_book(&book("T", "Emile", Read::Unread, &[])));
}

#[test]
fn read_state_must_be_among_the_chosen() {
    let f = filter(&[], &[Read::Reading, Read::Read], &[]);
    assert!(f.match_book(&book("T", "A", Read::Reading, &[])));
    assert!(f.match_book(&book("T", "A", Read::Read, &[])));
    assert!(!f.match_book(&book("T", "A", Read::Unread, &[])));
    assert!(!f.match_book(&book("T", "A", Read::Stopped, &[])));
}

#[test]
fn one_of_the_chosen_tags_is_enough() {
    let f = filter(&[], &[], &["scifi", "classic"]);
    assert!(f.match_book(&book("T", "A", Read::Unread, &["scifi"])));
    assert!(f.match_book(&book("T", "A", Read::Unread, &["x", "classic"])));
    assert!(!f.match_book(&book("T", "A", Read::Unread, &["x"])));
    assert!(!f.match_book(&book("T", "A", Read::Unread, &[])));
    assert!(!f.match_book(&book("T", "A", Read::Unread, &["Scifi"])));
}

#[test]
fn dimensions_combine_with_and() {
    let f = filter(&["A"], &[Read::Read], &["x"]);
    assert!(f.match_book(&book("T", "A", Read::Read, &["x"])));
    assert!(!f.match_book(&book("T", "B", Read::Read, &["x"])));
    assert!(!f.match_book(&book("T", "A", Read::Unread, &["x"])));
    assert!(!f.match_book(&book("T", "A", Read::Read, &["y"])));
}

#[test]
fn filter_books_keeps_the_matching_entries_in_order() {
    let b1 = book("T1", "A", Read::Read, &["x"]);
    let b2 = book("T2", "B", Read::Read, &["x"]);
    let b3 = book("T3", "A", Read::Read, &[]);
    let b4 = book("T4", "a", Read::Read, &[]);
    let f = filter(&["A"], &[], &[]);
    let kept = f.filter_books(vec![
        (&"three", &b3),
        (&"two", &b2),
        (&"four", &b4),
        (&"one", &b1),
    ]);
    assert_eq!(kept, vec![(&"three", &b3), (&"one", &b1)]);
    let none = f.filter_books(Vec::<(&usize, &Book)>::new());
    assert!(none.is_empty());
    let all = filter(&[], &[], &[]).filter_books(vec![(&1, &b1), (&2, &b2)]);
    assert_eq!(all, vec![(&1, &b1), (&2, &b2)]);
}
