//! The book table: the ids of the books that are shown, in the order in
//! which they are shown, and the cursor on one of the rows.

use crate::book::{Book, BookView, Read, Sorting};
use crate::books::{is_id_list, Bookcase};
use crate::filter::{Filter, FilterView};
use crate::text::{
    lemma_lex_lt_asymmetric, lemma_lex_lt_irreflexive, lemma_lex_lt_total, lemma_lex_lt_transitive,
    lex_lt,
};
use crate::tui::nav::{jump_target, jump_to, move_by, moved};
use rand::Rng;
use vstd::prelude::*;

verus! {

/// Those of the ids under which the bookcase holds a book, in the order
/// given.
pub open spec fn present(books: Map<usize, BookView>, ids: Seq<usize>) -> Seq<usize> {
    ids.filter(|id: usize| books.contains_key(id))
}

/// Those of the ids under which the bookcase holds a book that passes the
/// filter, in the order given.
pub open spec fn kept(books: Map<usize, BookView>, filter: FilterView, ids: Seq<usize>) -> Seq<
    usize,
> {
    ids.filter(|id: usize| books.contains_key(id) && filter.matches(books[id]))
}

/// The text by which the book under the id is ordered.
pub open spec fn key_of(books: Map<usize, BookView>, sorting: Sorting, id: usize) -> Seq<char> {
    books[id].sort_key(sorting)
}

/// Whether the row of `a` stands above the row of `b` once the rows are
/// sorted: its text comes first, or the texts are the same and `a` stood
/// above `b` in `order`, the rows before the sorting.
pub open spec fn stands_above(
    books: Map<usize, BookView>,
    sorting: Sorting,
    order: Seq<usize>,
    a: usize,
    b: usize,
) -> bool {
    lex_lt(key_of(books, sorting, a), key_of(books, sorting, b)) || (key_of(books, sorting, a)
        == key_of(books, sorting, b) && order.index_of(a) < order.index_of(b))
}

/// Whether every id of `rows` stands above the ids that follow it.
pub open spec fn in_sorted_order(
    rows: Seq<usize>,
    books: Map<usize, BookView>,
    sorting: Sorting,
    order: Seq<usize>,
) -> bool {
    forall|i: int, j: int|
        0 <= i < j < rows.len() ==> stands_above(books, sorting, order, rows[i], rows[j])
}

/// Whether `rows` are the rows `order` after sorting: the same ids, but
/// for those under which the bookcase holds no book, in ascending order of
/// their texts, and in their old order where the texts are the same.
pub open spec fn is_sorted_rows(
    rows: Seq<usize>,
    books: Map<usize, BookView>,
    sorting: Sorting,
    order: Seq<usize>,
) -> bool {
    &&& forall|id: usize| rows.contains(id) <==> order.contains(id) && books.contains_key(id)
    &&& in_sorted_order(rows, books, sorting, order)
}

/// Sorting changes the order of the rows and nothing else: where the
/// bookcase holds a book under each id, the sorted rows are the same ids.
pub proof fn lemma_sort_keeps_ids(
    rows: Seq<usize>,
    books: Map<usize, BookView>,
    sorting: Sorting,
    order: Seq<usize>,
)
    requires
        is_sorted_rows(rows, books, sorting, order),
        forall|i: int| 0 <= i < order.len() ==> books.contains_key(order[i]),
    ensures
        rows.to_set() == order.to_set(),
        order.no_duplicates() ==> rows.len() == order.len(),
{
    assert forall|id: usize| rows.to_set().contains(id) <==> order.to_set().contains(id) by {
        if order.contains(id) {
            let i = choose|i: int| 0 <= i < order.len() && order[i] == id;
            assert(books.contains_key(order[i]));
        }
    }
    assert(rows.to_set() =~= order.to_set());
    lemma_sorted_rows_distinct(rows, books, sorting, order);
    if order.no_duplicates() {
        rows.unique_seq_to_set();
        order.unique_seq_to_set();
    }
}

/// No id occurs twice among sorted rows.
pub proof fn lemma_sorted_rows_distinct(
    rows: Seq<usize>,
    books: Map<usize, BookView>,
    sorting: Sorting,
    order: Seq<usize>,
)
    requires
        is_sorted_rows(rows, books, sorting, order),
    ensures
        rows.no_duplicates(),
{
    assert forall|i: int, j: int| 0 <= i < rows.len() && 0 <= j < rows.len() && i != j implies rows[i]
        != rows[j] by {
        if rows[i] == rows[j] {
            lemma_lex_lt_irreflexive(key_of(books, sorting, rows[i]));
            if i < j {
                assert(stands_above(books, sorting, order, rows[i], rows[j]));
            } else {
                assert(stands_above(books, sorting, order, rows[j], rows[i]));
            }
        }
    }
}

/// Of two rows at most one stands above the other, and no row stands above
/// itself.
pub proof fn lemma_stands_above_asymmetric(
    books: Map<usize, BookView>,
    sorting: Sorting,
    order: Seq<usize>,
    a: usize,
    b: usize,
)
    requires
        stands_above(books, sorting, order, a, b),
    ensures
        !stands_above(books, sorting, order, b, a),
{
    let x = key_of(books, sorting, a);
    let y = key_of(books, sorting, b);
    lemma_lex_lt_irreflexive(x);
    if lex_lt(x, y) {
        lemma_lex_lt_asymmetric(x, y);
    }
}

/// The rows have at most one sorting: sorted rows that hold the same ids
/// are the same rows.
pub proof fn lemma_sorted_rows_unique(
    a: Seq<usize>,
    b: Seq<usize>,
    books: Map<usize, BookView>,
    sorting: Sorting,
    order: Seq<usize>,
)
    requires
        is_sorted_rows(a, books, sorting, order),
        is_sorted_rows(b, books, sorting, order),
    ensures
        a == b,
{
    lemma_sorted_unique(a, b, books, sorting, order);
}

/// In rows in sorted order every id but the last stands above the last.
proof fn lemma_last_stands_below(
    rows: Seq<usize>,
    books: Map<usize, BookView>,
    sorting: Sorting,
    order: Seq<usize>,
    id: usize,
)
    requires
        in_sorted_order(rows, books, sorting, order),
        rows.contains(id),
        id != rows.last(),
    ensures
        stands_above(books, sorting, order, id, rows.last()),
{
    let k = choose|k: int| 0 <= k < rows.len() && rows[k] == id;
    assert(stands_above(books, sorting, order, rows[k], rows[rows.len() - 1]));
}

/// Rows in sorted order without their last id are in sorted order, and
/// hold the ids of the rows but that last one.
proof fn lemma_sorted_without_last(
    rows: Seq<usize>,
    books: Map<usize, BookView>,
    sorting: Sorting,
    order: Seq<usize>,
)
    requires
        in_sorted_order(rows, books, sorting, order),
        rows.len() > 0,
    ensures
        in_sorted_order(rows.drop_last(), books, sorting, order),
        forall|id: usize| rows.drop_last().contains(id) <==> rows.contains(id) && id != rows.last(),
{
    let head = rows.drop_last();
    assert forall|id: usize| head.contains(id) <==> rows.contains(id) && id != rows.last() by {
        if head.contains(id) {
            let k = choose|k: int| 0 <= k < head.len() && head[k] == id;
            assert(stands_above(books, sorting, order, rows[k], rows[rows.len() - 1]));
            if id == rows.last() {
                lemma_stands_above_asymmetric(books, sorting, order, id, id);
            }
            assert(rows.contains(id));
        }
        if rows.contains(id) && id != rows.last() {
            let k = choose|k: int| 0 <= k < rows.len() && rows[k] == id;
            assert(head[k] == id);
        }
    }
    assert forall|p: int, q: int| 0 <= p < q < head.len() implies stands_above(
        books,
        sorting,
        order,
        head[p],
        head[q],
    ) by {
        assert(head[p] == rows[p] && head[q] == rows[q]);
    }
}

/// Two sequences of the same ids, each in sorted order, are the same
/// sequence.
proof fn lemma_sorted_unique(
    a: Seq<usize>,
    b: Seq<usize>,
    books: Map<usize, BookView>,
    sorting: Sorting,
    order: Seq<usize>,
)
    requires
        forall|id: usize| a.contains(id) <==> b.contains(id),
        in_sorted_order(a, books, sorting, order),
        in_sorted_order(b, books, sorting, order),
    ensures
        a == b,
    decreases a.len(),
{
    if a.len() == 0 {
        if b.len() > 0 {
            assert(b.contains(b[0]));
        }
        assert(a =~= b);
    } else {
        assert(a.contains(a.last()));
        assert(b.contains(a.last()));
        assert(b.contains(b.last()));
        if a.last() != b.last() {
            lemma_last_stands_below(b, books, sorting, order, a.last());
            lemma_last_stands_below(a, books, sorting, order, b.last());
            lemma_stands_above_asymmetric(books, sorting, order, a.last(), b.last());
        }
        assert(a.last() == b.last());
        lemma_sorted_without_last(a, books, sorting, order);
        lemma_sorted_without_last(b, books, sorting, order);
        assert forall|id: usize| a.drop_last().contains(id) <==> b.drop_last().contains(id) by {
            assert(a.contains(id) <==> b.contains(id));
        }
        lemma_sorted_unique(a.drop_last(), b.drop_last(), books, sorting, order);
        assert(a =~= a.drop_last().push(a.last()));
        assert(b =~= b.drop_last().push(b.last()));
    }
}

/// Filtering by one filter and then by a second keeps the rows that pass
/// both, in the same order.
pub proof fn lemma_filters_compose(
    books: Map<usize, BookView>,
    a: FilterView,
    b: FilterView,
    ids: Seq<usize>,
)
    ensures
        kept(books, b, kept(books, a, ids)) == ids.filter(
            |id: usize| books.contains_key(id) && a.matches(books[id]) && b.matches(books[id]),
        ),
{
    let pa = |id: usize| books.contains_key(id) && a.matches(books[id]);
    let pb = |id: usize| books.contains_key(id) && b.matches(books[id]);
    let both = |id: usize| books.contains_key(id) && a.matches(books[id]) && b.matches(books[id]);
    crate::filter::lemma_filter_twice(ids, pa, pb);
    assert((|id: usize| pa(id) && pb(id)) =~= both);
}

/// Every row that a filter keeps shows a book of the bookcase that passes
/// the filter.
pub proof fn lemma_kept_pass(
    books: Map<usize, BookView>,
    filter: FilterView,
    ids: Seq<usize>,
    i: int,
)
    requires
        0 <= i < kept(books, filter, ids).len(),
    ensures
        books.contains_key(kept(books, filter, ids)[i]),
        filter.matches(books[kept(books, filter, ids)[i]]),
{
    let pass = |id: usize| books.contains_key(id) && filter.matches(books[id]);
    ids.lemma_filter_pred(pass, i);
}

/// What the table holds.
pub struct AppView {
    /// The ids of the books that are shown, row by row.
    pub visible: Seq<usize>,
    /// The row under the cursor.
    pub cursor: Option<usize>,
}

impl AppView {
    /// No id is shown twice, and the cursor is on one of the rows, or
    /// absent where there is no row.
    pub open spec fn wf(self) -> bool {
        &&& self.visible.no_duplicates()
        &&& match self.cursor {
            Some(c) => c < self.visible.len(),
            None => self.visible.len() == 0,
        }
    }

    /// The cursor for other rows: it keeps its row, or goes to the last
    /// row where its row is no more; it goes to the first row where there
    /// was no row before, and is absent where there is no row now.
    pub open spec fn cursor_among(self, rows: nat) -> Option<usize> {
        if rows == 0 {
            None
        } else {
            match self.cursor {
                Some(c) => if c < rows {
                    Some(c)
                } else {
                    Some((rows - 1) as usize)
                },
                None => Some(0),
            }
        }
    }

    /// The table with other rows.
    pub open spec fn with_rows(self, rows: Seq<usize>) -> AppView {
        AppView { visible: rows, cursor: self.cursor_among(rows.len()) }
    }

    /// The table after a move of the cursor by `delta` rows. A table
    /// without rows stays as it is.
    pub open spec fn moved_by(self, delta: int) -> AppView {
        match self.cursor {
            Some(c) => AppView {
                cursor: Some(moved(c as int, delta, self.visible.len() as int) as usize),
                ..self
            },
            None => self,
        }
    }

    /// The table after a jump of the cursor to `n`. A table without rows
    /// stays as it is.
    pub open spec fn moved_to(self, n: int) -> AppView {
        if self.visible.len() == 0 {
            self
        } else {
            AppView { cursor: Some(jump_target(n, self.visible.len() as int) as usize), ..self }
        }
    }

    /// The table with the cursor on the given row. Where it has no such
    /// row, it stays as it is.
    pub open spec fn on_row(self, row: usize) -> AppView {
        if row < self.visible.len() {
            AppView { cursor: Some(row), ..self }
        } else {
            self
        }
    }

    /// The id in the row under the cursor.
    pub open spec fn selected_id(self) -> Option<usize> {
        match self.cursor {
            Some(c) => Some(self.visible[c as int]),
            None => None,
        }
    }
}

/// A row of the table as it is shown.
#[derive(Clone, Copy, Debug)]
pub struct TableRow<'b> {
    pub id: usize,
    /// The character that stands for the reading state.
    pub read: char,
    pub title: &'b str,
    pub author: &'b str,
}

impl<'b> TableRow<'b> {
    /// Whether the row shows the given book under the given id.
    pub open spec fn shows(self, id: usize, book: BookView) -> bool {
        &&& self.id == id
        &&& self.read == book.read.symbol_spec()
        &&& self.title@ == book.title
        &&& self.author@ == book.author
    }
}

/// The ids of the rows, in the same order.
pub open spec fn row_ids(rows: Seq<TableRow>) -> Seq<usize> {
    rows.map_values(|r: TableRow| r.id)
}

/// The row that shows an entry of the bookcase.
pub fn row_from_book<'b>(entry: (&usize, &'b Book)) -> (r: TableRow<'b>)
    ensures
        r.shows(*entry.0, entry.1@),
{
    TableRow {
        id: *entry.0,
        read: entry.1.read_state().symbol(),
        title: entry.1.title.as_str(),
        author: entry.1.author.as_str(),
    }
}

/// `rand::Rng::gen_range` on the generator of the current thread, for the
/// range from 0 up to `n`, which is left out: some number of that range.
/// The call panics where the range is empty, and where the operating system
/// gives the generator no seed.
#[verifier::external_body]
fn random_below(n: usize) -> (r: usize)
    requires
        n > 0,
    ensures
        r < n,
{
    rand::thread_rng().gen_range(0..n)
}

/// The book table.
#[derive(Debug)]
pub struct App {
    visible_books: Vec<usize>,
    cursor: Option<usize>,
}

impl View for App {
    type V = AppView;

    closed spec fn view(&self) -> AppView {
        AppView { visible: self.visible_books@, cursor: self.cursor }
    }
}

impl App {
    #[verifier::type_invariant]
    spec fn inv(&self) -> bool {
        self@.wf()
    }

    /// The row under the cursor for a table of `rows` rows that takes the
    /// place of this one.
    fn cursor_among(&self, rows: usize) -> (r: Option<usize>)
        ensures
            r == self@.cursor_among(rows as nat),
    {
        if rows == 0 {
            None
        } else {
            match self.cursor {
                Some(c) => if c < rows {
                    Some(c)
                } else {
                    Some(rows - 1)
                },
                None => Some(0),
            }
        }
    }

    /// The table of all the books of the bookcase, in the order of their
    /// ids, with the cursor on the first row.
    pub fn new(bookcase: &Bookcase) -> (r: App)
        ensures
            r@ == (AppView {
                visible: bookcase.ids(),
                cursor: if bookcase.ids().len() > 0 {
                    Some(0usize)
                } else {
                    None
                },
            }),
            r@.wf(),
    {
        let visible_books = bookcase.get_ids();
        let cursor = if visible_books.len() > 0 {
            Some(0)
        } else {
            None
        };
        App { visible_books, cursor }
    }

    /// The ids of the books that are shown, row by row.
    pub fn visible_books(&self) -> (r: &Vec<usize>)
        ensures
            r@ == self@.visible,
            self@.wf(),
    {
        proof {
            use_type_invariant(self);
        }
        &self.visible_books
    }

    /// The row under the cursor.
    pub fn selected(&self) -> (r: Option<usize>)
        ensures
            r == self@.cursor,
            self@.wf(),
    {
        proof {
            use_type_invariant(self);
        }
        self.cursor
    }

    /// The id in the row under the cursor.
    pub fn selected_id(&self) -> (r: Option<usize>)
        ensures
            r == self@.selected_id(),
            self@.wf(),
    {
        proof {
            use_type_invariant(self);
        }
        match self.cursor {
            Some(c) => Some(self.visible_books[c]),
            None => None,
        }
    }

    /// Moves the cursor by `delta` rows.
    pub fn move_by(&mut self, delta: isize)
        ensures
            final(self)@ == old(self)@.moved_by(delta as int),
    {
        proof {
            use_type_invariant(&*self);
        }
        if let Some(i) = self.cursor {
            let j = move_by(i, delta, self.visible_books.len());
            self.cursor = Some(j);
        }
    }

    /// Moves the cursor to the row that `i` names: see `jump_target`.
    pub fn move_to(&mut self, i: isize)
        ensures
            final(self)@ == old(self)@.moved_to(i as int),
    {
        proof {
            use_type_invariant(&*self);
        }
        if self.visible_books.len() > 0 {
            self.cursor = Some(jump_to(i, self.visible_books.len()));
        }
    }

    /// Moves the cursor to the given row. Where the table has no such row,
    /// the cursor stays where it is.
    pub fn select_row(&mut self, row: usize)
        ensures
            final(self)@ == old(self)@.on_row(row),
    {
        proof {
            use_type_invariant(&*self);
        }
        if row < self.visible_books.len() {
            self.cursor = Some(row);
        }
    }

    /// Moves the cursor to a row that the random generator picks. A table
    /// without rows stays as it is.
    pub fn random_jump(&mut self)
        ensures
            final(self)@.visible == old(self)@.visible,
            final(self)@.wf(),
            exists|row: usize| final(self)@ == #[trigger] old(self)@.on_row(row),
    {
        proof {
            use_type_invariant(&*self);
        }
        if self.visible_books.len() > 0 {
            let n = random_below(self.visible_books.len());
            self.select_row(n);
            assert(self@ == old(self)@.on_row(n));
        } else {
            assert(self@ == old(self)@.on_row(0));
        }
    }

    /// Shows all the books of the bookcase again, in the order of their
    /// ids.
    pub fn reset_visible(&mut self, bookcase: &Bookcase)
        ensures
            final(self)@ == old(self)@.with_rows(bookcase.ids()),
            is_id_list(bookcase.ids(), bookcase.books@.dom()),
    {
        let visible_books = bookcase.get_ids();
        let cursor = self.cursor_among(visible_books.len());
        *self = App { visible_books, cursor };
    }

    /// Of the rows that are shown, keeps those whose books pass the
    /// filter.
    pub fn filter_currently_visible(&mut self, bookcase: &Bookcase, filter: &Filter)
        ensures
            final(self)@ == old(self)@.with_rows(kept(bookcase@, filter@, old(self)@.visible)),
    {
        proof {
            use_type_invariant(&*self);
        }
        let ghost books = bookcase@;
        let ghost pass = |id: usize| books.contains_key(id) && filter@.matches(books[id]);
        let ghost rows = self.visible_books@;
        let mut out: Vec<usize> = Vec::new();
        let mut i: usize = 0;
        assert(rows.take(0).filter(pass) =~= Seq::empty()) by {
            reveal(Seq::filter);
        }
        while i < self.visible_books.len()
            invariant
                i <= rows.len(),
                rows == self.visible_books@,
                rows.no_duplicates(),
                books == bookcase@,
                pass == |id: usize| books.contains_key(id) && filter@.matches(books[id]),
                out@ == rows.take(i as int).filter(pass),
                out@.no_duplicates(),
                forall|k: int| 0 <= k < out@.len() ==> rows.take(i as int).contains(#[trigger] out@[k]),
            decreases rows.len() - i,
        {
            let id = self.visible_books[i];
            proof {
                assert(rows.take(i + 1) =~= rows.take(i as int).push(id));
                rows.take(i as int).lemma_filter_push(id, pass);
                assert forall|k: int| 0 <= k < out@.len() implies rows.take(i + 1).contains(
                    #[trigger] out@[k],
                ) by {
                    let head = rows.take(i as int);
                    let m = choose|m: int| 0 <= m < head.len() && head[m] == out@[k];
                    assert(rows.take(i + 1)[m] == out@[k]);
                }
                assert forall|k: int| 0 <= k < out@.len() implies out@[k] != id by {
                    let head = rows.take(i as int);
                    let m = choose|m: int| 0 <= m < head.len() && head[m] == out@[k];
                    assert(rows[m] == out@[k]);
                }
            }
            let passes = match bookcase.get_book(id) {
                Some(book) => filter.match_book(book),
                None => false,
            };
            if passes {
                out.push(id);
                assert(rows.take(i + 1)[i as int] == id);
            }
            i += 1;
        }
        assert(rows.take(rows.len() as int) =~= rows);
        let cursor = self.cursor_among(out.len());
        *self = App { visible_books: out, cursor };
    }

    /// Sorts the rows by the titles or by the authors of their books, in
    /// ascending order. Rows with the same text keep their order, a row
    /// under whose id the bookcase holds no book leaves the table, and
    /// the cursor stays on the row on which it is, whatever that row
    /// shows afterwards.
    pub fn sort_by(&mut self, bookcase: &Bookcase, sorting: &Sorting)
        ensures
            is_sorted_rows(final(self)@.visible, bookcase@, *sorting, old(self)@.visible),
            final(self)@ == old(self)@.with_rows(final(self)@.visible),
    {
        proof {
            use_type_invariant(&*self);
        }
        let ghost books = bookcase@;
        let ghost order = self.visible_books@;
        let mut out: Vec<usize> = Vec::new();
        let mut k: usize = 0;
        while k < self.visible_books.len()
            invariant
                k <= order.len(),
                order == self.visible_books@,
                order.no_duplicates(),
                books == bookcase@,
                is_sorted_rows(out@, books, *sorting, order.take(k as int)),
                in_sorted_order(out@, books, *sorting, order),
            decreases order.len() - k,
        {
            let id = self.visible_books[k];
            let ghost before = out@;
            proof {
                lemma_index_of(order, k as int);
                let head = order.take(k as int);
                let next = order.take(k + 1);
                assert forall|x: usize| next.contains(x) <==> head.contains(x) || x == id by {
                    if next.contains(x) {
                        let m = choose|m: int| 0 <= m < next.len() && next[m] == x;
                        if m < k {
                            assert(head[m] == x);
                        }
                    }
                    if head.contains(x) {
                        let m = choose|m: int| 0 <= m < head.len() && head[m] == x;
                        assert(next[m] == x);
                    }
                    assert(next[k as int] == id);
                }
            }
            match bookcase.get_book(id) {
                Some(book) => {
                    assert forall|i: int| 0 <= i < out@.len() implies books.contains_key(
                        #[trigger] out@[i],
                    ) by {
                        assert(out@.contains(out@[i]));
                    }
                    let p = insertion_point(&out, bookcase, book, sorting, Ghost(id));
                    out.insert(p, id);
                    proof {
                        let key = key_of(books, *sorting, id);
                        assert forall|x: usize| out@.contains(x) <==> before.contains(x) || x
                            == id by {
                            if out@.contains(x) {
                                let m = choose|m: int| 0 <= m < out@.len() && out@[m] == x;
                                if m < p {
                                    assert(before[m] == x);
                                } else if m > p {
                                    assert(before[m - 1] == x);
                                }
                            }
                            if before.contains(x) {
                                let m = choose|m: int| 0 <= m < before.len() && before[m] == x;
                                if m < p {
                                    assert(out@[m] == x);
                                } else {
                                    assert(out@[m + 1] == x);
                                }
                            }
                            assert(out@[p as int] == id);
                        }
                        assert forall|i: int| 0 <= i < before.len() implies order.index_of(
                            #[trigger] before[i],
                        ) < k by {
                            assert(before.contains(before[i]));
                            let head = order.take(k as int);
                            let m = choose|m: int| 0 <= m < head.len() && head[m] == before[i];
                            lemma_index_of(order, m);
                        }
                        assert forall|i: int| 0 <= i < p implies stands_above(
                            books,
                            *sorting,
                            order,
                            #[trigger] before[i],
                            id,
                        ) by {
                            let last = key_of(books, *sorting, before[p - 1]);
                            let here = key_of(books, *sorting, before[i]);
                            if last != key {
                                lemma_lex_lt_total(last, key);
                            }
                            if i < p - 1 {
                                assert(stands_above(books, *sorting, order, before[i], before[p - 1]));
                                if lex_lt(here, last) && lex_lt(last, key) {
                                    lemma_lex_lt_transitive(here, last, key);
                                }
                            }
                        }
                        assert forall|i: int, j: int| 0 <= i < j < out@.len() implies stands_above(
                            books,
                            *sorting,
                            order,
                            out@[i],
                            out@[j],
                        ) by {
                            if j == p {
                                assert(out@[i] == before[i]);
                            } else if i == p {
                                assert(out@[j] == before[j - 1]);
                            } else if j < p {
                                assert(out@[i] == before[i] && out@[j] == before[j]);
                            } else if i < p {
                                assert(out@[i] == before[i] && out@[j] == before[j - 1]);
                            } else {
                                assert(out@[i] == before[i - 1] && out@[j] == before[j - 1]);
                            }
                        }
                        assert forall|x: usize| out@.contains(x) <==> order.take(k + 1).contains(x)
                            && books.contains_key(x) by {
                            assert(before.contains(x) <==> order.take(k as int).contains(x)
                                && books.contains_key(x));
                        }
                        lemma_stands_above_in_prefix(books, *sorting, order, k + 1, out@);
                    }
                },
                None => {
                    proof {
                        lemma_stands_above_in_prefix(books, *sorting, order, k + 1, out@);
                    }
                },
            }
            k += 1;
        }
        proof {
            assert(order.take(order.len() as int) =~= order);
            lemma_sorted_rows_distinct(out@, books, *sorting, order);
        }
        let cursor = self.cursor_among(out.len());
        *self = App { visible_books: out, cursor };
    }

    /// Gives the book in the row under the cursor the reading state, at
    /// once. Where there is no row, or no book under its id, nothing
    /// changes.
    pub fn mark_selected(&self, bookcase: &mut Bookcase, read: Read)
        ensures
            final(bookcase).name == old(bookcase).name,
            final(bookcase)@ == match self@.selected_id() {
                Some(id) => if old(bookcase)@.contains_key(id) {
                    old(bookcase)@.insert(id, BookView { read, ..old(bookcase)@[id] })
                } else {
                    old(bookcase)@
                },
                None => old(bookcase)@,
            },
    {
        proof {
            bookcase.lemma_view();
        }
        if let Some(id) = self.selected_id() {
            if let Some(book) = bookcase.get_mut_book(id) {
                match read {
                    Read::Reading => book.start(),
                    Read::Read => book.finish(),
                    Read::Stopped => book.stop(),
                    Read::Unread => book.reset(),
                }
            }
            proof {
                bookcase.lemma_view();
                if old(bookcase)@.contains_key(id) {
                    assert(bookcase@ =~= old(bookcase)@.insert(
                        id,
                        BookView { read, ..old(bookcase)@[id] },
                    ));
                } else {
                    assert(bookcase@ =~= old(bookcase)@);
                }
            }
        }
    }

    /// The rows as they are shown, but for those under whose ids the
    /// bookcase holds no book.
    pub fn rows<'b>(&'b self, bookcase: &'b Bookcase) -> (r: Vec<TableRow<'b>>)
        ensures
            row_ids(r@) == present(bookcase@, self@.visible),
            forall|i: int|
                0 <= i < r@.len() ==> bookcase@.contains_key((#[trigger] r@[i]).id) && r@[i].shows(
                    r@[i].id,
                    bookcase@[r@[i].id],
                ),
    {
        let ghost books = bookcase@;
        let ghost there = |id: usize| books.contains_key(id);
        proof {
            bookcase.lemma_view();
        }
        let ghost ids = self.visible_books@;
        let entries = bookcase.get_books_by_keys(self.visible_books.as_slice());
        let mut out: Vec<TableRow<'b>> = Vec::new();
        let mut i: usize = 0;
        assert(row_ids(out@) =~= ids.take(0).filter(there)) by {
            reveal(Seq::filter);
        }
        while i < entries.len()
            invariant
                i <= ids.len(),
                ids == self.visible_books@,
                entries@.len() == ids.len(),
                books == bookcase@,
                there == |id: usize| books.contains_key(id),
                forall|k: int|
                    0 <= k < ids.len() ==> match #[trigger] entries@[k] {
                        Some(e) => books.contains_key(ids[k]) && *e.0 == ids[k] && e.1@ == books[ids[k]],
                        None => !books.contains_key(ids[k]),
                    },
                row_ids(out@) == ids.take(i as int).filter(there),
                forall|k: int|
                    0 <= k < out@.len() ==> books.contains_key((#[trigger] out@[k]).id) && out@[k].shows(
                        out@[k].id,
                        books[out@[k].id],
                    ),
            decreases ids.len() - i,
        {
            proof {
                assert(ids.take(i + 1) =~= ids.take(i as int).push(ids[i as int]));
                ids.take(i as int).lemma_filter_push(ids[i as int], there);
            }
            let ghost before = row_ids(out@);
            match entries[i] {
                Some(entry) => {
                    let row = row_from_book(entry);
                    out.push(row);
                    assert(row_ids(out@) =~= before.push(row.id));
                },
                None => {},
            }
            i += 1;
        }
        assert(ids.take(ids.len() as int) =~= ids);
        out
    }
}

/// An id that occurs once in a sequence is found at the place where it
/// stands.
proof fn lemma_index_of(order: Seq<usize>, k: int)
    requires
        order.no_duplicates(),
        0 <= k < order.len(),
    ensures
        order.index_of(order[k]) == k,
{
    let i = order.index_of(order[k]);
    assert(0 <= i < order.len() && order[i] == order[k]);
}

/// Rows that are sorted and that all stand among the first `n` of `order`
/// are the sorted rows of these `n`, if they hold the ids that they
/// should.
proof fn lemma_stands_above_in_prefix(
    books: Map<usize, BookView>,
    sorting: Sorting,
    order: Seq<usize>,
    n: int,
    rows: Seq<usize>,
)
    requires
        order.no_duplicates(),
        0 <= n <= order.len(),
        forall|id: usize| rows.contains(id) <==> order.take(n).contains(id) && books.contains_key(id),
        in_sorted_order(rows, books, sorting, order),
    ensures
        is_sorted_rows(rows, books, sorting, order.take(n)),
{
    let head = order.take(n);
    assert forall|i: int, j: int| 0 <= i < j < rows.len() implies stands_above(
        books,
        sorting,
        head,
        rows[i],
        rows[j],
    ) by {
        assert(stands_above(books, sorting, order, rows[i], rows[j]));
        assert(rows.contains(rows[i]));
        assert(rows.contains(rows[j]));
        let a = choose|a: int| 0 <= a < head.len() && head[a] == rows[i];
        let b = choose|b: int| 0 <= b < head.len() && head[b] == rows[j];
        lemma_index_of(order, a);
        lemma_index_of(order, b);
        lemma_index_of(head, a);
        lemma_index_of(head, b);
    }
}

/// Where a book goes among sorted rows: below the rows whose texts come
/// before its text or are the same, and above the others.
fn insertion_point(
    rows: &Vec<usize>,
    bookcase: &Bookcase,
    book: &Book,
    sorting: &Sorting,
    Ghost(id): Ghost<usize>,
) -> (p: usize)
    requires
        bookcase@.contains_key(id),
        book@ == bookcase@[id],
        forall|i: int| 0 <= i < rows@.len() ==> bookcase@.contains_key(#[trigger] rows@[i]),
    ensures
        p <= rows@.len(),
        forall|j: int|
            p <= j < rows@.len() ==> lex_lt(
                key_of(bookcase@, *sorting, id),
                key_of(bookcase@, *sorting, #[trigger] rows@[j]),
            ),
        p > 0 ==> !lex_lt(key_of(bookcase@, *sorting, id), key_of(bookcase@, *sorting, rows@[p - 1])),
{
    let mut p: usize = rows.len();
    let mut searching = true;
    while searching && p > 0
        invariant
            p <= rows@.len(),
            bookcase@.contains_key(id),
            book@ == bookcase@[id],
            forall|i: int| 0 <= i < rows@.len() ==> bookcase@.contains_key(#[trigger] rows@[i]),
            forall|j: int|
                p <= j < rows@.len() ==> lex_lt(
                    key_of(bookcase@, *sorting, id),
                    key_of(bookcase@, *sorting, #[trigger] rows@[j]),
                ),
            !searching ==> p > 0 && !lex_lt(
                key_of(bookcase@, *sorting, id),
                key_of(bookcase@, *sorting, rows@[p - 1]),
            ),
        decreases p + if searching { 1int } else { 0int },
    {
        let above = match bookcase.get_book(rows[p - 1]) {
            Some(other) => book.sorts_before(other, sorting),
            None => false,
        };
        if above {
            p -= 1;
        } else {
            searching = false;
        }
    }
    p
}

} // verus!
