//! Filters: which books a reader wants to see.

use crate::book::{Book, BookView, Read};
use crate::tags::texts;
use crate::text::str_eq;
use vstd::prelude::*;

verus! {

/// A choice of authors, reading states and tags.
///
/// A dimension for which nothing is chosen lets every book pass. Otherwise
/// a book passes the dimension if one of the chosen values fits it, and it
/// passes the filter if it passes all three dimensions.
#[derive(Debug)]
pub struct Filter {
    pub author_match: Vec<String>,
    pub read_match: Vec<Read>,
    pub tag_match: Vec<String>,
}

/// Whether the two slices hold the same text.
fn string_match(s1: &str, s2: &str) -> (r: bool)
    ensures
        r == (s1@ == s2@),
{
    str_eq(s1, s2)
}

/// What a filter says: the chosen authors, reading states and tags.
pub struct FilterView {
    pub author_match: Seq<Seq<char>>,
    pub read_match: Seq<Read>,
    pub tag_match: Seq<Seq<char>>,
}

impl View for Filter {
    type V = FilterView;

    open spec fn view(&self) -> FilterView {
        FilterView {
            author_match: texts(self.author_match@),
            read_match: self.read_match@,
            tag_match: texts(self.tag_match@),
        }
    }
}

impl FilterView {
    /// No author is chosen, or the given one is among the chosen.
    pub open spec fn author_fits(self, author: Seq<char>) -> bool {
        self.author_match.len() == 0 || self.author_match.contains(author)
    }

    /// No reading state is chosen, or the given one is among the chosen.
    pub open spec fn read_fits(self, read: Read) -> bool {
        self.read_match.len() == 0 || self.read_match.contains(read)
    }

    /// No tag is chosen, or one of the chosen tags is among the given ones.
    pub open spec fn tags_fit(self, tags: Set<Seq<char>>) -> bool {
        self.tag_match.len() == 0 || exists|i: int|
            0 <= i < self.tag_match.len() && tags.contains(#[trigger] self.tag_match[i])
    }

    /// The book passes the filter.
    pub open spec fn matches(self, book: BookView) -> bool {
        self.author_fits(book.author) && self.read_fits(book.read) && self.tags_fit(book.tags)
    }

    /// The entries whose books pass the filter, in the order given.
    pub open spec fn filtered<'a, T>(self, books: Seq<(&'a T, &'a Book)>) -> Seq<(&'a T, &'a Book)> {
        books.filter(|e: (&T, &Book)| self.matches(e.1@))
    }
}

impl Filter {
    fn author_passes(&self, author: &str) -> (r: bool)
        ensures
            r == self@.author_fits(author@),
    {
        if self.author_match.len() == 0 {
            return true;
        }
        let mut i: usize = 0;
        while i < self.author_match.len()
            invariant
                i <= self.author_match@.len(),
                self@.author_match.len() == self.author_match@.len(),
                forall|k: int| 0 <= k < i ==> self@.author_match[k] != author@,
            decreases self.author_match@.len() - i,
        {
            assert(self@.author_match[i as int] == self.author_match@[i as int]@);
            if string_match(self.author_match[i].as_str(), author) {
                return true;
            }
            i += 1;
        }
        false
    }

    fn read_passes(&self, read: Read) -> (r: bool)
        ensures
            r == self@.read_fits(read),
    {
        if self.read_match.len() == 0 {
            return true;
        }
        let mut i: usize = 0;
        while i < self.read_match.len()
            invariant
                i <= self.read_match@.len(),
                forall|k: int| 0 <= k < i ==> self.read_match@[k] != read,
            decreases self.read_match@.len() - i,
        {
            if self.read_match[i] == read {
                return true;
            }
            i += 1;
        }
        false
    }

    fn tags_pass(&self, book: &Book) -> (r: bool)
        ensures
            r == self@.tags_fit(book@.tags),
    {
        if self.tag_match.len() == 0 {
            return true;
        }
        let mut i: usize = 0;
        while i < self.tag_match.len()
            invariant
                i <= self.tag_match@.len(),
                self@.tag_match.len() == self.tag_match@.len(),
                forall|k: int| 0 <= k < i ==> !book@.tags.contains(#[trigger] self@.tag_match[k]),
            decreases self.tag_match@.len() - i,
        {
            assert(self@.tag_match[i as int] == self.tag_match@[i as int]@);
            if book.contains_tag(self.tag_match[i].as_str()) {
                return true;
            }
            i += 1;
        }
        false
    }

    /// Whether the book passes the filter.
    pub fn match_book(&self, book: &Book) -> (r: bool)
        ensures
            r == self@.matches(book@),
    {
        self.author_passes(book.author.as_str()) && self.read_passes(book.read) && self.tags_pass(
            book,
        )
    }

    /// The entries whose books pass the filter, in the order given.
    pub fn filter_books<'b, T>(&self, books: Vec<(&'b T, &'b Book)>) -> (r: Vec<(&'b T, &'b Book)>)
        ensures
            r@ == self@.filtered(books@),
    {
        let ghost pass = |e: (&T, &Book)| self@.matches(e.1@);
        let mut out: Vec<(&'b T, &'b Book)> = Vec::new();
        let mut i: usize = 0;
        assert(books@.take(0).filter(pass) =~= Seq::empty()) by {
            reveal(Seq::filter);
        }
        while i < books.len()
            invariant
                i <= books@.len(),
                pass == |e: (&T, &Book)| self@.matches(e.1@),
                out@ == books@.take(i as int).filter(pass),
            decreases books@.len() - i,
        {
            let e = books[i];
            proof {
                assert(books@.take(i + 1) =~= books@.take(i as int).push(e));
                books@.take(i as int).lemma_filter_push(e, pass);
            }
            if self.match_book(e.1) {
                out.push(e);
            }
            i += 1;
        }
        assert(books@.take(books@.len() as int) =~= books@);
        out
    }
}

/// A filter in which nothing is chosen lets every book pass.
pub proof fn lemma_empty_filter_matches_all(filter: FilterView, book: BookView)
    requires
        filter.author_match.len() == 0,
        filter.read_match.len() == 0,
        filter.tag_match.len() == 0,
    ensures
        filter.matches(book),
{
}

/// Filtering by one predicate and then by a second keeps what filtering
/// by both at once keeps, in the same order.
pub proof fn lemma_filter_twice<A>(s: Seq<A>, p: spec_fn(A) -> bool, q: spec_fn(A) -> bool)
    ensures
        s.filter(p).filter(q) == s.filter(|x: A| p(x) && q(x)),
    decreases s.len(),
{
    reveal(Seq::filter);
    let both = |x: A| p(x) && q(x);
    if s.len() > 0 {
        lemma_filter_twice(s.drop_last(), p, q);
        if p(s.last()) {
            s.drop_last().filter(p).lemma_filter_push(s.last(), q);
        }
    }
}

} // verus!
