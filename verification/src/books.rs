//! The bookcase: the books of one reader, each under its id.

use crate::book::{Book, BookView, Read};
use crate::tags::{first_occurrences, texts, TagSet};
use crate::text::str_eq;
use rand::seq::IteratorRandom;
use std::collections::BTreeMap;
use vstd::prelude::*;
use vstd::std_specs::cmp::OrdSpec;
use vstd::std_specs::iter::IteratorSpec;
use vstd::string::StringExecFns;

verus! {

/// `ids` lists the members of `dom`, each once, in ascending order.
pub open spec fn is_id_list(ids: Seq<usize>, dom: Set<usize>) -> bool {
    &&& forall|i: int, j: int| 0 <= i < j < ids.len() ==> ids[i] < ids[j]
    &&& forall|id: usize| ids.contains(id) <==> dom.contains(id)
}

/// The members of `dom` below `n` in ascending order.
pub open spec fn ids_below(dom: Set<usize>, n: nat) -> Seq<usize>
    decreases n,
{
    if n == 0 {
        Seq::empty()
    } else {
        let m = (n - 1) as nat;
        if m <= usize::MAX && dom.contains(m as usize) {
            ids_below(dom, m).push(m as usize)
        } else {
            ids_below(dom, m)
        }
    }
}

/// The members of `dom` in ascending order.
pub open spec fn id_list(dom: Set<usize>) -> Seq<usize> {
    ids_below(dom, (usize::MAX + 1) as nat)
}

/// `ids_below(dom, n)` lists the members of `dom` below `n`, each once, in
/// ascending order.
pub proof fn lemma_ids_below(dom: Set<usize>, n: nat)
    ensures
        forall|i: int, j: int|
            0 <= i < j < ids_below(dom, n).len() ==> ids_below(dom, n)[i] < ids_below(dom, n)[j],
        forall|i: int| 0 <= i < ids_below(dom, n).len() ==> ids_below(dom, n)[i] < n,
        forall|id: usize| ids_below(dom, n).contains(id) <==> dom.contains(id) && id < n,
    decreases n,
{
    if n > 0 {
        let m = (n - 1) as nat;
        let before = ids_below(dom, m);
        let all = ids_below(dom, n);
        lemma_ids_below(dom, m);
        assert forall|id: usize| all.contains(id) <==> dom.contains(id) && id < n by {
            if all.contains(id) {
                let i = choose|i: int| 0 <= i < all.len() && all[i] == id;
                if i < before.len() {
                    assert(before[i] == id);
                    assert(before.contains(id));
                }
            }
            if dom.contains(id) && id < n {
                if id == m {
                    assert(all[all.len() - 1] == id);
                } else {
                    assert(before.contains(id));
                    let i = choose|i: int| 0 <= i < before.len() && before[i] == id;
                    assert(all[i] == id);
                }
            }
        }
    }
}

/// `id_list(dom)` lists the members of `dom`, each once, in ascending
/// order.
pub proof fn lemma_id_list(dom: Set<usize>)
    ensures
        is_id_list(id_list(dom), dom),
{
    lemma_ids_below(dom, (usize::MAX + 1) as nat);
}

/// An ascending list without its last id lists the set without that id.
proof fn lemma_id_list_without_last(ids: Seq<usize>, dom: Set<usize>)
    requires
        is_id_list(ids, dom),
        ids.len() > 0,
    ensures
        is_id_list(ids.drop_last(), dom.remove(ids.last())),
{
    let head = ids.drop_last();
    let rest = dom.remove(ids.last());
    assert forall|id: usize| head.contains(id) <==> rest.contains(id) by {
        if head.contains(id) {
            let k = choose|k: int| 0 <= k < head.len() && head[k] == id;
            assert(ids[k] == id);
            assert(ids.contains(id));
        }
        if rest.contains(id) {
            assert(ids.contains(id));
            let k = choose|k: int| 0 <= k < ids.len() && ids[k] == id;
            assert(head[k] == id);
        }
    }
}

/// The last id of an ascending list is the largest member of the set.
proof fn lemma_id_list_last_is_largest(ids: Seq<usize>, dom: Set<usize>, id: usize)
    requires
        is_id_list(ids, dom),
        dom.contains(id),
    ensures
        ids.len() > 0,
        id <= ids.last(),
{
    assert(ids.contains(id));
    let k = choose|k: int| 0 <= k < ids.len() && ids[k] == id;
    assert(ids[k] <= ids[ids.len() - 1]);
}

/// A set has at most one ascending list of its members.
pub proof fn lemma_id_list_unique(a: Seq<usize>, b: Seq<usize>, dom: Set<usize>)
    requires
        is_id_list(a, dom),
        is_id_list(b, dom),
    ensures
        a == b,
    decreases a.len(),
{
    if a.len() == 0 {
        if b.len() > 0 {
            assert(b.contains(b[0]));
            assert(a.contains(b[0]));
        }
        assert(a =~= b);
    } else {
        assert(a.contains(a.last()));
        lemma_id_list_last_is_largest(b, dom, a.last());
        assert(b.contains(b.last()));
        lemma_id_list_last_is_largest(a, dom, b.last());
        lemma_id_list_without_last(a, dom);
        lemma_id_list_without_last(b, dom);
        lemma_id_list_unique(a.drop_last(), b.drop_last(), dom.remove(a.last()));
        assert(a =~= a.drop_last().push(a.last()));
        assert(b =~= b.drop_last().push(b.last()));
    }
}

/// An ascending list of the members of `dom` is the list `id_list(dom)`.
pub proof fn lemma_id_list_is(ids: Seq<usize>, dom: Set<usize>)
    requires
        is_id_list(ids, dom),
    ensures
        ids == id_list(dom),
{
    lemma_id_list(dom);
    lemma_id_list_unique(ids, id_list(dom), dom);
}

/// The texts of a sequence of string slices, in the same order.
pub open spec fn slice_texts(v: Seq<&str>) -> Seq<Seq<char>> {
    v.map_values(|s: &str| s@)
}

/// The ids of a sequence of entries, in the same order.
pub open spec fn entry_ids(entries: Seq<(&usize, &Book)>) -> Seq<usize> {
    entries.map_values(|e: (&usize, &Book)| *e.0)
}

/// The books of one reader. Each book stands under an id of its own.
#[derive(Debug, PartialEq, Eq)]
pub struct Bookcase {
    pub name: String,
    pub books: BTreeMap<usize, Book>,
}

impl View for Bookcase {
    type V = Map<usize, BookView>;

    /// What each book says, by its id.
    open spec fn view(&self) -> Map<usize, BookView> {
        self.books@.map_values(|b: Book| b@)
    }
}

/// `std::collections::BTreeMap::get_mut`: a mutable reference to the value
/// under the key, or `None` where the map holds no such key. Through the
/// reference that value alone can change.
#[verifier::external_body]
fn map_get_mut(books: &mut BTreeMap<usize, Book>, id: usize) -> (r: Option<&mut Book>)
    ensures
        match r {
            Some(b) => old(books)@.contains_key(id) && *b == old(books)@[id] && final(books)@
                == old(books)@.insert(id, *final(b)),
            None => !old(books)@.contains_key(id) && final(books)@ == old(books)@,
        },
{
    books.get_mut(&id)
}

/// `rand::seq::IteratorRandom::choose` on the entries of the map, with the
/// generator of the current thread: one of the entries, whichever the
/// generator picks, or `None` if and only if the map is empty. The call
/// panics where the operating system gives the generator no seed.
#[verifier::external_body]
fn choose_entry(books: &BTreeMap<usize, Book>) -> (r: Option<(&usize, &Book)>)
    ensures
        match r {
            Some(e) => books@.contains_key(*e.0) && *e.1 == books@[*e.0],
            None => books@.dom() == Set::<usize>::empty(),
        },
{
    books.iter().choose(&mut rand::thread_rng())
}

impl Bookcase {
    /// The ids of the books in ascending order.
    pub open spec fn ids(&self) -> Seq<usize> {
        id_list(self.books@.dom())
    }

    /// The id that the next added book gets: one more than the largest id
    /// in use, and 1 in an empty bookcase.
    pub open spec fn next_id(&self) -> int {
        if self.ids().len() == 0 {
            1
        } else {
            self.ids().last() + 1
        }
    }

    /// The authors of the books in the order of the ids, one for each book.
    pub open spec fn author_list(&self) -> Seq<Seq<char>> {
        self.ids().map_values(|id: usize| self.books@[id].author@)
    }

    /// The tags that at least one book carries.
    pub open spec fn all_tags(&self) -> Set<Seq<char>> {
        Set::new(
            |t: Seq<char>|
                exists|id: usize| self.books@.contains_key(id) && self.books@[id].tags@.contains(t),
        )
    }

    /// An empty bookcase named "Bookcase".
    pub fn new() -> (r: Bookcase)
        ensures
            r.name@ == "Bookcase"@,
            r.books@ == Map::<usize, Book>::empty(),
    {
        Bookcase { name: String::from_str("Bookcase"), books: BTreeMap::new() }
    }

    /// The entries of the bookcase in the order of the ids.
    pub fn get_books(&self) -> (r: Vec<(&usize, &Book)>)
        ensures
            entry_ids(r@) == self.ids(),
            is_id_list(self.ids(), self.books@.dom()),
            forall|i: int| 0 <= i < r@.len() ==> *r@[i].1 == self.books@[*r@[i].0],
    {
        let mut out: Vec<(&usize, &Book)> = Vec::new();
        let ghost entries = self.books.iter().remaining();
        for e in it: self.books.iter()
            invariant
                it.seq() == entries,
                out@.len() == it.index(),
                forall|i: int| 0 <= i < out@.len() ==> out@[i] == entries[i],
        {
            out.push(e);
        }
        proof {
            let ks = entries.map_values(|e: (&usize, &Book)| *e.0);
            assert(out@ =~= entries);
            assert(entry_ids(out@) =~= ks);
            assert(vstd::std_specs::btree::increasing_seq(ks));
            assert forall|i: int, j: int| 0 <= i < j < ks.len() implies ks[i] < ks[j] by {
                assert(ks[i].cmp_spec(&ks[j]) is Less);
            }
            assert forall|id: usize| ks.contains(id) <==> self.books@.dom().contains(id) by {
                if ks.contains(id) {
                    let i = choose|i: int| 0 <= i < ks.len() && ks[i] == id;
                    assert(self.books@.contains_key(*entries[i].0));
                }
                if self.books@.contains_key(id) {
                    let i = choose|i: int|
                        0 <= i < entries.len() && entries[i] == (&id, &self.books@[id]);
                    assert(ks[i] == id);
                }
            }
            lemma_id_list_is(ks, self.books@.dom());
            assert forall|i: int| 0 <= i < out@.len() implies *out@[i].1 == self.books@[*out@[i].0] by {
                assert(self.books@.contains_key(*entries[i].0));
            }
        }
        out
    }

    /// The ids of the books in ascending order.
    pub fn get_ids(&self) -> (r: Vec<usize>)
        ensures
            r@ == self.ids(),
            is_id_list(r@, self.books@.dom()),
    {
        let entries = self.get_books();
        let mut out: Vec<usize> = Vec::new();
        let mut i: usize = 0;
        while i < entries.len()
            invariant
                i <= entries@.len(),
                out@.len() == i,
                forall|k: int| 0 <= k < i ==> out@[k] == *entries@[k].0,
            decreases entries@.len() - i,
        {
            out.push(*entries[i].0);
            i += 1;
        }
        assert(out@ =~= entry_ids(entries@));
        out
    }

    /// The largest id in use, if there is a book at all.
    fn last_id(&self) -> (r: Option<usize>)
        ensures
            is_id_list(self.ids(), self.books@.dom()),
            match r {
                Some(id) => self.ids().len() > 0 && id == self.ids().last(),
                None => self.ids().len() == 0,
            },
    {
        let ids = self.get_ids();
        if ids.len() == 0 {
            None
        } else {
            Some(ids[ids.len() - 1])
        }
    }

    /// Puts a new, unread book without tags under the id `next_id()`,
    /// which becomes the last of the ids.
    pub fn add_book(&mut self, title: String, author: String)
        requires
            old(self).next_id() <= usize::MAX,
        ensures
            final(self).name == old(self).name,
            !old(self).books@.contains_key(old(self).next_id() as usize),
            final(self).books@.dom() == old(self).books@.dom().insert(old(self).next_id() as usize),
            final(self).ids() == old(self).ids().push(old(self).next_id() as usize),
            forall|id: usize|
                old(self).books@.contains_key(id) ==> final(self).books@[id] == old(self).books@[id],
            final(self).books@[old(self).next_id() as usize]@ == (BookView {
                title: title@,
                author: author@,
                read: Read::Unread,
                tags: Set::<Seq<char>>::empty(),
            }),
    {
        let key: usize = match self.last_id() {
            Some(max_key) => max_key + 1,
            None => 1,
        };
        let ghost ids = self.ids();
        proof {
            if self.books@.contains_key(key) {
                assert(ids.contains(key));
                let i = choose|i: int| 0 <= i < ids.len() && ids[i] == key;
                assert(ids[i] <= ids.last());
            }
        }
        self.books.insert(key, Book::new(title, author));
        proof {
            let after = ids.push(key);
            assert forall|i: int, j: int| 0 <= i < j < after.len() implies after[i] < after[j] by {
                if j == ids.len() {
                    assert(ids[i] <= ids.last());
                }
            }
            assert forall|id: usize| after.contains(id) <==> self.books@.dom().contains(id) by {
                if after.contains(id) {
                    let i = choose|i: int| 0 <= i < after.len() && after[i] == id;
                    if i < ids.len() {
                        assert(ids.contains(id));
                    }
                }
                if self.books@.dom().contains(id) {
                    if id == key {
                        assert(after[ids.len() as int] == id);
                    } else {
                        assert(ids.contains(id));
                        let i = choose|i: int| 0 <= i < ids.len() && ids[i] == id;
                        assert(after[i] == id);
                    }
                }
            }
            lemma_id_list_is(after, self.books@.dom());
        }
    }

    /// The view of a bookcase holds the view of each book under the id of
    /// the book.
    pub proof fn lemma_view(&self)
        ensures
            self@.dom() == self.books@.dom(),
            forall|id: usize| self.books@.contains_key(id) ==> #[trigger] self@[id] == self.books@[id]@,
    {
        assert(self@.dom() =~= self.books@.dom());
    }

    /// The book under the id, if there is one.
    pub fn get_book(&self, id: usize) -> (r: Option<&Book>)
        ensures
            match r {
                Some(b) => self.books@.contains_key(id) && *b == self.books@[id] && self@.contains_key(
                    id,
                ) && b@ == self@[id],
                None => !self.books@.contains_key(id) && !self@.contains_key(id),
            },
    {
        proof {
            self.lemma_view();
        }
        self.books.get(&id)
    }

    /// The book under the id, to be changed in place, if there is one.
    /// Nothing else in the bookcase changes.
    pub fn get_mut_book(&mut self, id: usize) -> (r: Option<&mut Book>)
        ensures
            final(self).name == old(self).name,
            match r {
                Some(b) => old(self).books@.contains_key(id) && *b == old(self).books@[id]
                    && final(self).books@ == old(self).books@.insert(id, *final(b)),
                None => !old(self).books@.contains_key(id) && final(self).books@ == old(
                    self,
                ).books@,
            },
    {
        map_get_mut(&mut self.books, id)
    }

    /// Puts the book under the id, in place of the one that may stand there.
    pub fn replace_book(&mut self, id: usize, book: Book)
        ensures
            final(self).name == old(self).name,
            final(self).books@ == old(self).books@.insert(id, book),
            final(self)@ == old(self)@.insert(id, book@),
    {
        self.books.insert(id, book);
        assert(self@ =~= old(self)@.insert(id, book@));
    }

    /// For each of the given ids, in their order, the entry under it, or
    /// `None` where the bookcase holds no such id.
    pub fn get_books_by_keys<'k>(&'k self, keys: &'k [usize]) -> (r: Vec<Option<(&'k usize, &'k Book)>>)
        ensures
            r@.len() == keys@.len(),
            forall|i: int|
                0 <= i < keys@.len() ==> match #[trigger] r@[i] {
                    Some(e) => self.books@.contains_key(keys@[i]) && *e.0 == keys@[i] && *e.1
                        == self.books@[keys@[i]],
                    None => !self.books@.contains_key(keys@[i]),
                },
    {
        let mut out: Vec<Option<(&'k usize, &'k Book)>> = Vec::new();
        let mut i: usize = 0;
        while i < keys.len()
            invariant
                i <= keys@.len(),
                out@.len() == i,
                forall|k: int|
                    0 <= k < i ==> match #[trigger] out@[k] {
                        Some(e) => self.books@.contains_key(keys@[k]) && *e.0 == keys@[k] && *e.1
                            == self.books@[keys@[k]],
                        None => !self.books@.contains_key(keys@[k]),
                    },
            decreases keys@.len() - i,
        {
            match self.books.get(&keys[i]) {
                Some(b) => out.push(Some((&keys[i], b))),
                None => out.push(None),
            }
            i += 1;
        }
        out
    }

    /// Takes the book under the id out, if there is one.
    pub fn remove_book(&mut self, id: usize)
        ensures
            final(self).name == old(self).name,
            final(self).books@ == old(self).books@.remove(id),
    {
        self.books.remove(&id);
    }

    /// One of the entries, whichever the random generator picks.
    pub fn pick_book(&self) -> (r: (&usize, &Book))
        requires
            !self.books@.is_empty(),
        ensures
            self.books@.contains_key(*r.0),
            *r.1 == self.books@[*r.0],
    {
        choose_entry(&self.books).unwrap()
    }

    /// The authors of the books, each once, in the order in which the
    /// books, taken by ascending id, first name them.
    pub fn get_authors(&self) -> (r: Vec<&str>)
        ensures
            slice_texts(r@) == first_occurrences(self.author_list()),
    {
        let entries = self.get_books();
        let mut out: Vec<&str> = Vec::new();
        let ghost authors = self.author_list();
        assert(slice_texts(out@) =~= first_occurrences(authors.take(0)));
        let mut i: usize = 0;
        while i < entries.len()
            invariant
                i <= entries@.len(),
                entry_ids(entries@) == self.ids(),
                authors == self.author_list(),
                forall|k: int| 0 <= k < entries@.len() ==> *entries@[k].1 == self.books@[*entries@[k].0],
                slice_texts(out@) == first_occurrences(authors.take(i as int)),
            decreases entries@.len() - i,
        {
            let author: &str = entries[i].1.author.as_str();
            proof {
                assert(entry_ids(entries@)[i as int] == *entries@[i as int].0);
                assert(authors[i as int] == author@);
                assert(authors.take(i + 1).drop_last() =~= authors.take(i as int));
                assert(authors.take(i + 1).last() == author@);
            }
            let ghost before = slice_texts(out@);
            if !holds_text(&out, author) {
                out.push(author);
                assert(slice_texts(out@) =~= before.push(author@));
            }
            i += 1;
        }
        assert(authors.take(entries@.len() as int) =~= authors);
        out
    }

    /// The tags that at least one book carries, each once, in no
    /// particular order.
    pub fn get_tags(&self) -> (r: Vec<String>)
        ensures
            texts(r@).no_duplicates(),
            texts(r@).to_set() == self.all_tags(),
    {
        let entries = self.get_books();
        let mut found = TagSet::new();
        let mut i: usize = 0;
        while i < entries.len()
            invariant
                i <= entries@.len(),
                forall|t: Seq<char>|
                    found@.contains(t) <==> exists|k: int|
                        0 <= k < i && (#[trigger] entries@[k]).1.tags@.contains(t),
            decreases entries@.len() - i,
        {
            found.extend(&entries[i].1.tags);
            i += 1;
        }
        proof {
            let ids = self.ids();
            assert forall|t: Seq<char>| found@.contains(t) <==> self.all_tags().contains(t) by {
                if found@.contains(t) {
                    let k = choose|k: int|
                        0 <= k < entries@.len() && (#[trigger] entries@[k]).1.tags@.contains(t);
                    assert(entry_ids(entries@)[k] == *entries@[k].0);
                    assert(ids.contains(*entries@[k].0));
                }
                if self.all_tags().contains(t) {
                    let id = choose|id: usize|
                        self.books@.contains_key(id) && self.books@[id].tags@.contains(t);
                    assert(ids.contains(id));
                    let k = choose|k: int| 0 <= k < ids.len() && ids[k] == id;
                    assert(entry_ids(entries@)[k] == *entries@[k].0);
                    assert(entries@[k].1.tags@.contains(t));
                }
            }
            assert(found@ =~= self.all_tags());
        }
        found.to_vec()
    }

    /// Gives the books the ids 1, 2, 3 and so on, in the order of the ids
    /// that they had.
    pub fn util_renumber(&mut self)
        ensures
            final(self).name == old(self).name,
            final(self).ids() == Seq::new(old(self).ids().len(), |i: int| (i + 1) as usize),
            forall|i: int|
                0 <= i < old(self).ids().len() ==> #[trigger] final(self).books@[(i + 1) as usize]
                    == old(self).books@[old(self).ids()[i]],
    {
        let ids = self.get_ids();
        let n = ids.len();
        let ghost before = self.books@;
        let mut moved: Vec<Book> = Vec::new();
        let mut i: usize = 0;
        while i < n
            invariant
                i <= n,
                n == ids@.len(),
                is_id_list(ids@, before.dom()),
                self.name == old(self).name,
                moved@.len() == i,
                forall|k: int| 0 <= k < i ==> moved@[k] == before[ids@[k]],
                forall|id: usize|
                    self.books@.contains_key(id) <==> exists|k: int|
                        i <= k < n && #[trigger] ids@[k] == id,
                forall|id: usize| self.books@.contains_key(id) ==> self.books@[id] == before[id],
            decreases n - i,
        {
            assert(ids@.contains(ids@[i as int]));
            match self.books.remove(&ids[i]) {
                Some(b) => moved.push(b),
                None => {},
            }
            i += 1;
        }
        let mut k: usize = n;
        while k > 0
            invariant
                k <= n,
                n == ids@.len(),
                self.name == old(self).name,
                moved@.len() == k,
                forall|j: int| 0 <= j < k ==> moved@[j] == before[ids@[j]],
                forall|id: usize| self.books@.contains_key(id) <==> k < id <= n,
                forall|id: usize| k < id <= n ==> self.books@[id] == before[ids@[id - 1]],
            decreases k,
        {
            match moved.pop() {
                Some(b) => {
                    self.books.insert(k, b);
                },
                None => {},
            }
            k -= 1;
        }
        proof {
            let fresh = Seq::new(n as nat, |i: int| (i + 1) as usize);
            assert forall|id: usize| fresh.contains(id) <==> self.books@.dom().contains(id) by {
                if 1 <= id <= n {
                    assert(fresh[id - 1] == id);
                }
            }
            lemma_id_list_is(fresh, self.books@.dom());
        }
    }
}

/// Whether one of the slices holds the given text.
fn holds_text(list: &Vec<&str>, s: &str) -> (r: bool)
    ensures
        r == slice_texts(list@).contains(s@),
{
    let mut i: usize = 0;
    while i < list.len()
        invariant
            i <= list@.len(),
            forall|k: int| 0 <= k < i ==> slice_texts(list@)[k] != s@,
        decreases list@.len() - i,
    {
        if str_eq(list[i], s) {
            assert(slice_texts(list@)[i as int] == s@);
            return true;
        }
        i += 1;
    }
    false
}

} // verus!
