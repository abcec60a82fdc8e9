use booktop::book::{Book, Read};
use booktop::books::Bookcase;
use booktop::tags::TagSet;
use booktop::util::example_bookcase;
use std::collections::{BTreeMap, HashMap, HashSet};

fn tags_of(tags: &[&str]) -> TagSet {
    TagSet::from_vec(tags.iter().map(|t| t.to_string()).collect())
}

fn test_book1() -> Book {
    Book {
        title: "Titular Title".to_string(),
        author: "Authoritative Author".to_string(),
        tags: tags_of(&["alpha", "beta"]),
        ..Default::default()
    }
}

fn test_book2() -> Book {
    Book {
        title: "Uitular Title".to_string(),
        author: "Buthoritative Author".to_string(),
        tags: tags_of(&["alpha", "beta"]),
        ..Default::default()
    }
}

fn test_book3() -> Book {
    Book {
        title: "Vitular Title".to_string(),
        author: "Cuthoritative Author".to_string(),
        ..Default::default()
    }
}

fn test_bookcase() -> Bookcase {
    let b1 = test_book1();
    let b2 = test_book2();
    let b3 = test_book3();
    Bookcase {
        name: "Bookcase name".to_string(),
        books: BTreeMap::from([(1, b1), (2, b2), (3, b3)]),
    }
}

#[test]
fn get_tags() {
    let b = test_bookcase();
    let tags = b.get_tags();
    let mut tags_dedup = tags.clone();
    tags_dedup.dedup();

    // Vec has no duplicates
    assert_eq!(tags, tags_dedup);
    // Vec has correct contents in any order
    assert_eq!(
        HashSet::<String>::from_iter(tags),
        HashSet::<String>::from_iter(vec!["alpha".to_string(), "beta".to_string()])
    )
}

#[test]
fn get_books() {
    let b = test_bookcase();

    assert_eq!(b.get_book(1), Some(&test_book1()));
    assert_eq!(b.get_book(9), None);

    let mut b = b;

    assert_eq!(b.get_mut_book(1), Some(&mut test_book1()));
    assert_eq!(b.get_mut_book(9), None);

    let b = b;

    // Do not care about order in which get_books_by_keys returns
    assert_eq!(
        HashMap::from_iter(b.get_books_by_keys(&[2, 1]).into_iter().flatten()),
        HashMap::from([(&1, &test_book1()), (&2, &test_book2())])
    );

    assert_eq!(
        b.get_books().into_iter().collect::<Vec<_>>(),
        vec![
            (&1, &test_book1()),
            (&2, &test_book2()),
            (&3, &test_book3())
        ]
    );
}

#[test]
fn get_books_by_keys_answers_each_key_in_order() {
    let b = test_bookcase();
    let found = b.get_books_by_keys(&[3, 9, 1, 3]);
    assert_eq!(
        found,
        vec![
            Some((&3, &test_book3())),
            None,
            Some((&1, &test_book1())),
            Some((&3, &test_book3())),
        ]
    );
    assert_eq!(b.get_books_by_keys(&[]), vec![]);
}

#[test]
fn new_bookcase_is_empty_and_named() {
    let b = Bookcase::new();
    assert_eq!(b.name, "Bookcase");
    assert!(b.books.is_empty());
    assert_eq!(b.get_ids(), Vec::<usize>::new());
    assert_eq!(b.get_authors(), Vec::<&str>::new());
    assert_eq!(b.get_tags(), Vec::<String>::new());
}

#[test]
fn add_book_takes_the_id_after_the_largest() {
    let mut b = Bookcase::new();
    b.add_book("A".to_string(), "X".to_string());
    assert_eq!(b.get_ids(), vec![1]);
    b.add_book("B".to_string(), "Y".to_string());
    b.add_book("C".to_string(), "Z".to_string());
    assert_eq!(b.get_ids(), vec![1, 2, 3]);
    b.remove_book(2);
    b.add_book("D".to_string(), "W".to_string());
    assert_eq!(b.get_ids(), vec![1, 3, 4]);
    b.remove_book(4);
    b.add_book("E".to_string(), "V".to_string());
    assert_eq!(b.get_ids(), vec![1, 3, 4]);
    let added = b.get_book(4).unwrap();
    assert_eq!(added.title, "E");
    assert_eq!(added.author, "V");
    assert_eq!(added.read, Read::Unread);
    assert!(added.tags.is_empty());
    assert_eq!(b.get_book(1).unwrap().title, "A");
    assert_eq!(b.name, "Bookcase");
}

#[test]
fn remove_book_takes_only_that_book() {
    let mut b = test_bookcase();
    b.remove_book(2);
    assert_eq!(b.get_ids(), vec![1, 3]);
    assert_eq!(b.get_book(1), Some(&test_book1()));
    assert_eq!(b.get_book(3), Some(&test_book3()));
    b.remove_book(7);
    assert_eq!(b.get_ids(), vec![1, 3]);
    assert_eq!(b.name, "Bookcase name");
}

#[test]
fn replace_book_inserts_or_overwrites() {
    let mut b = test_bookcase();
    b.replace_book(2, test_book3());
    assert_eq!(b.get_book(2), Some(&test_book3()));
    assert_eq!(b.get_ids(), vec![1, 2, 3]);
    b.replace_book(8, test_book1());
    assert_eq!(b.get_book(8), Some(&test_book1()));
    assert_eq!(b.get_ids(), vec![1, 2, 3, 8]);
}

#[test]
fn get_mut_book_changes_the_book_in_place() {
    let mut b = test_bookcase();
    match b.get_mut_book(2) {
        Some(book) => {
            book.finish();
            assert!(book.tag("gamma"));
        }
        None => panic!("book 2 is in the bookcase"),
    }
    let changed = b.get_book(2).unwrap();
    assert_eq!(changed.read, Read::Read);
    assert!(changed.contains_tag("gamma"));
    assert_eq!(changed.title, "Uitular Title");
    assert_eq!(b.get_book(1), Some(&test_book1()));
    assert_eq!(b.get_book(3), Some(&test_book3()));
    assert_eq!(b.get_ids(), vec![1, 2, 3]);
}

#[test]
fn get_authors_keeps_first_occurrences_in_id_order() {
    let mut b = Bookcase::new();
    b.add_book("T1".to_string(), "Verne".to_string());
    b.add_book("T2".to_string(), "Dickens".to_string());
    b.add_book("T3".to_string(), "Verne".to_string());
    b.add_book("T4".to_string(), "Dickens".to_string());
    b.add_book("T5".to_string(), "verne".to_string());
    b.add_book("T6".to_string(), "Austen".to_string());
    assert_eq!(b.get_authors(), vec!["Verne", "Dickens", "verne", "Austen"]);
}

#[test]
fn get_tags_is_the_union_of_all_tags() {
    let mut b = test_bookcase();
    b.get_mut_book(3).unwrap().tag("gamma");
    b.get_mut_book(1).unwrap().untag("alpha");
    let mut tags = b.get_tags();
    tags.sort();
    assert_eq!(tags, vec!["alpha", "beta", "gamma"]);
}

#[test]
fn util_renumber_closes_the_gaps() {
    let mut b = Bookcase {
        name: "Gaps".to_string(),
        books: BTreeMap::from([(0, test_book3()), (4, test_book1()), (9, test_book2())]),
    };
    b.util_renumber();
    assert_eq!(b.get_ids(), vec![1, 2, 3]);
    assert_eq!(b.get_book(1), Some(&test_book3()));
    assert_eq!(b.get_book(2), Some(&test_book1()));
    assert_eq!(b.get_book(3), Some(&test_book2()));
    assert_eq!(b.name, "Gaps");

    let mut empty = Bookcase::new();
    empty.util_renumber();
    assert!(empty.books.is_empty());
}

#[test]
fn pick_book_picks_an_entry_of_the_bookcase() {
    let b = test_bookcase();
    for _ in 0..50 {
        let (id, book) = b.pick_book();
        assert_eq!(b.get_book(*id), Some(book));
    }
    let single = Bookcase {
        name: "One".to_string(),
        books: BTreeMap::from([(5, test_book2())]),
    };
    assert_eq!(single.pick_book(), (&5, &test_book2()));
}

#[test]
fn example_bookcase_holds_its_two_books() {
    let b = example_bookcase();
    assert_eq!(b.name, "Bookcase");
    assert_eq!(b.get_ids(), vec![1, 2]);
    assert_eq!(
        b.get_book(1),
        Some(&Book::new(
            "Great Expectations".to_string(),
            "Charles Dickens".to_string()
        ))
    );
    assert_eq!(
        b.get_book(2),
        Some(&Book::new(
            "Journey to the Center of the Earth".to_string(),
            "Jules Verne".to_string()
        ))
    );
}

#[test]
fn bookcases_compare_by_name_and_books() {
    assert_eq!(test_bookcase(), test_bookcase());
    let mut other = test_bookcase();
    other.remove_book(3);
    assert_ne!(test_bookcase(), other);
}
