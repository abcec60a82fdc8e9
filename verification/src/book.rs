//! A book: title, author, reading state and tags.

use crate::tags::TagSet;
use crate::text::{lex_lt, str_compare};
use std::cmp::Ordering;
use vstd::prelude::*;
use vstd::std_specs::cmp::PartialEqSpecImpl;
use vstd::string::StringExecFns;

verus! {

/// How far the reader has come with a book.
#[derive(Clone, Copy, Debug, PartialEq, Eq, Hash, Structural)]
pub enum Read {
    Read,
    Reading,
    Stopped,
    Unread,
}

impl Default for Read {
    fn default() -> (r: Read)
        ensures
            r == Read::Unread,
    {
        Read::Unread
    }
}

impl Read {
    /// The four states in their canonical order.
    pub open spec fn all_spec() -> Seq<Read> {
        seq![Read::Read, Read::Reading, Read::Stopped, Read::Unread]
    }

    /// The character that stands for the state in a table row.
    pub open spec fn symbol_spec(self) -> char {
        match self {
            Read::Read => 'F',
            Read::Reading => 'R',
            Read::Unread => 'U',
            Read::Stopped => 'S',
        }
    }

    /// The name of the state.
    pub open spec fn name(self) -> Seq<char> {
        match self {
            Read::Read => "Read"@,
            Read::Reading => "Reading"@,
            Read::Stopped => "Stopped"@,
            Read::Unread => "Unread"@,
        }
    }

    /// The four states in their canonical order.
    pub fn all() -> (r: [Read; 4])
        ensures
            r@ == Read::all_spec(),
    {
        let r = [Read::Read, Read::Reading, Read::Stopped, Read::Unread];
        assert(r@ =~= Read::all_spec());
        r
    }

    /// The character that stands for the state in a table row.
    pub fn symbol(&self) -> (r: char)
        ensures
            r == self.symbol_spec(),
    {
        match self {
            Read::Read => 'F',
            Read::Reading => 'R',
            Read::Unread => 'U',
            Read::Stopped => 'S',
        }
    }

    /// The name of the state as a string.
    pub fn to_string(&self) -> (r: String)
        ensures
            r@ == self.name(),
    {
        match self {
            Read::Read => String::from_str("Read"),
            Read::Reading => String::from_str("Reading"),
            Read::Stopped => String::from_str("Stopped"),
            Read::Unread => String::from_str("Unread"),
        }
    }
}

/// The field by which a list of books is ordered.
#[derive(Clone, Copy, Debug, PartialEq, Eq, Structural)]
pub enum Sorting {
    Title,
    Author,
}

impl Default for Sorting {
    fn default() -> (r: Sorting)
        ensures
            r == Sorting::Title,
    {
        Sorting::Title
    }
}

/// A book.
#[derive(Debug)]
pub struct Book {
    pub title: String,
    pub author: String,
    pub read: Read,
    pub tags: TagSet,
}

/// What a book says: its texts, its state and the set of its tags.
pub struct BookView {
    pub title: Seq<char>,
    pub author: Seq<char>,
    pub read: Read,
    pub tags: Set<Seq<char>>,
}

impl View for Book {
    type V = BookView;

    open spec fn view(&self) -> BookView {
        BookView { title: self.title@, author: self.author@, read: self.read, tags: self.tags@ }
    }
}

impl BookView {
    /// The text by which the book is ordered under the given sorting.
    pub open spec fn sort_key(self, sorting: Sorting) -> Seq<char> {
        match sorting {
            Sorting::Title => self.title,
            Sorting::Author => self.author,
        }
    }
}

impl Book {
    /// An unread book without tags.
    pub fn new(title: String, author: String) -> (r: Book)
        ensures
            r@ == (BookView {
                title: title@,
                author: author@,
                read: Read::Unread,
                tags: Set::<Seq<char>>::empty(),
            }),
    {
        Book { title, author, read: Read::Unread, tags: TagSet::new() }
    }

    /// Marks the book as being read.
    pub fn start(&mut self)
        ensures
            final(self)@ == (BookView { read: Read::Reading, ..old(self)@ }),
    {
        self.read = Read::Reading
    }

    /// Marks the book as read to the end.
    pub fn finish(&mut self)
        ensures
            final(self)@ == (BookView { read: Read::Read, ..old(self)@ }),
    {
        self.read = Read::Read
    }

    /// Marks the book as given up.
    pub fn stop(&mut self)
        ensures
            final(self)@ == (BookView { read: Read::Stopped, ..old(self)@ }),
    {
        self.read = Read::Stopped
    }

    /// Marks the book as unread.
    pub fn reset(&mut self)
        ensures
            final(self)@ == (BookView { read: Read::Unread, ..old(self)@ }),
    {
        self.read = Read::Unread
    }

    /// The reading state.
    pub fn read_state(&self) -> (r: &Read)
        ensures
            *r == self@.read,
    {
        &self.read
    }

    /// Adds a tag. Returns whether the book did not have it yet.
    pub fn tag(&mut self, tag: &str) -> (r: bool)
        ensures
            final(self)@ == (BookView { tags: old(self)@.tags.insert(tag@), ..old(self)@ }),
            r == !old(self)@.tags.contains(tag@),
    {
        self.tags.insert(String::from_str(tag))
    }

    /// Takes a tag away. Returns whether the book had it.
    pub fn untag(&mut self, tag: &str) -> (r: bool)
        ensures
            final(self)@ == (BookView { tags: old(self)@.tags.remove(tag@), ..old(self)@ }),
            r == old(self)@.tags.contains(tag@),
    {
        self.tags.remove(tag)
    }

    /// Whether the book has the tag.
    pub fn contains_tag(&self, tag: &str) -> (r: bool)
        ensures
            r == self@.tags.contains(tag@),
    {
        self.tags.contains(tag)
    }

    /// Compares two books by title or by author, lexicographically by code
    /// point.
    pub fn cmp_by(&self, other: &Self, sorting: &Sorting) -> (r: Ordering)
        ensures
            (r is Less) == lex_lt(self@.sort_key(*sorting), other@.sort_key(*sorting)),
            (r is Equal) == (self@.sort_key(*sorting) == other@.sort_key(*sorting)),
            (r is Greater) == lex_lt(other@.sort_key(*sorting), self@.sort_key(*sorting)),
    {
        match sorting {
            Sorting::Title => str_compare(self.title.as_str(), other.title.as_str()),
            Sorting::Author => str_compare(self.author.as_str(), other.author.as_str()),
        }
    }

    /// Whether this book comes before the other one by title or by author,
    /// lexicographically by code point.
    pub fn sorts_before(&self, other: &Self, sorting: &Sorting) -> (r: bool)
        ensures
            r == lex_lt(self@.sort_key(*sorting), other@.sort_key(*sorting)),
    {
        match self.cmp_by(other, sorting) {
            Ordering::Less => true,
            _ => false,
        }
    }
}

impl Clone for Book {
    fn clone(&self) -> (r: Book)
        ensures
            r@ == self@,
            r.tags.elements() == self.tags.elements(),
    {
        Book {
            title: self.title.clone(),
            author: self.author.clone(),
            read: self.read,
            tags: self.tags.clone(),
        }
    }
}

impl Default for Book {
    fn default() -> (r: Book)
        ensures
            r@ == (BookView {
                title: "Title Unknown"@,
                author: "Author Unknown"@,
                read: Read::Unread,
                tags: Set::<Seq<char>>::empty(),
            }),
    {
        Book {
            title: String::from_str("Title Unknown"),
            author: String::from_str("Author Unknown"),
            read: Read::Unread,
            tags: TagSet::new(),
        }
    }
}

impl PartialEq for Book {
    /// Two books are equal when they say the same.
    fn eq(&self, other: &Book) -> (r: bool) {
        self.title == other.title && self.author == other.author && self.read == other.read
            && self.tags == other.tags
    }
}

impl Eq for Book {

}

impl PartialEqSpecImpl for Book {
    open spec fn obeys_eq_spec() -> bool {
        true
    }

    open spec fn eq_spec(&self, other: &Book) -> bool {
        self@ == other@
    }
}

} // verus!
