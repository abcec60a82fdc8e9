//! A bookcase to try the program on.

use crate::book::{BookView, Read};
use crate::books::{lemma_id_list_is, Bookcase};
use vstd::prelude::*;
use vstd::string::StringExecFns;

verus! {

/// A bookcase with two unread books: "Great Expectations" by Charles
/// Dickens under the id 1, and "Journey to the Center of the Earth" by
/// Jules Verne under the id 2.
pub fn example_bookcase() -> (r: Bookcase)
    ensures
        r.name@ == "Bookcase"@,
        r.ids() == seq![1usize, 2usize],
        r.books@.dom() == set![1usize, 2usize],
        r.books@[1]@ == (BookView {
            title: "Great Expectations"@,
            author: "Charles Dickens"@,
            read: Read::Unread,
            tags: Set::<Seq<char>>::empty(),
        }),
        r.books@[2]@ == (BookView {
            title: "Journey to the Center of the Earth"@,
            author: "Jules Verne"@,
            read: Read::Unread,
            tags: Set::<Seq<char>>::empty(),
        }),
{
    let mut books = Bookcase::new();
    proof {
        let none = Seq::<usize>::empty();
        assert(books.books@.dom() =~= Set::<usize>::empty());
        lemma_id_list_is(none, books.books@.dom());
    }
    books.add_book(String::from_str("Great Expectations"), String::from_str("Charles Dickens"));
    assert(books.ids() =~= seq![1usize]);
    books.add_book(
        String::from_str("Journey to the Center of the Earth"),
        String::from_str("Jules Verne"),
    );
    assert(books.ids() =~= seq![1usize, 2usize]);
    assert(books.books@.dom() =~= set![1usize, 2usize]);
    books
}

} // verus!
