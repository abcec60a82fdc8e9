//! The terminal interface: the book table, the two dialogs, and what each
//! key does to them.

pub mod app;
pub mod book_popup;
pub mod filter_popup;
pub mod key;
pub mod nav;
pub mod select;

use crate::book::BookView;
use crate::books::Bookcase;
use crate::tui::app::{kept, App, AppView};
use crate::tui::book_popup::{BookPopupApp, BookPopupStep, BookPopupView};
use crate::tui::filter_popup::{FilterPopupApp, FilterPopupStep};
use crate::tui::key::{Command, Key, Step};
use vstd::prelude::*;

verus! {

/// The dialog that is open over the book table.
#[derive(Debug)]
pub enum Popup {
    Book(BookPopupApp),
    Filter(FilterPopupApp),
}

/// The interface: the book table and, while one is open, a dialog. While a
/// dialog is open the keys go to it and the table waits.
#[derive(Debug)]
pub struct Tui {
    pub app: App,
    pub popup: Option<Popup>,
}

/// The shares, in percent, into which a dialog that takes `percent` of the
/// screen along one axis splits that axis: a margin, the dialog, and a
/// margin of the same size.
pub fn popup_percentages(percent: u16) -> (r: [u16; 3])
    requires
        percent <= 100,
    ensures
        r[0] == (100 - percent) / 2,
        r[1] == percent,
        r[2] == (100 - percent) / 2,
{
    [(100 - percent) / 2, percent, (100 - percent) / 2]
}

impl Tui {
    /// Whether `after` is `before` with the given book under the given
    /// id, in place of the one that may have stood there.
    pub open spec fn written_back(
        before: Bookcase,
        after: Bookcase,
        id: usize,
        book: BookView,
    ) -> bool {
        after.name == before.name && after@ == before@.insert(id, book)
    }

    /// Whether a key that asks `command` of the table `app`, with no dialog
    /// open, leads to the interface `next` and to `step`.
    pub open spec fn browses_to(
        app: AppView,
        books: Bookcase,
        command: Command,
        next: Tui,
        step: Step,
    ) -> bool {
        match command {
            Command::Quit => step == Step::Quit && next.app@ == app && next.popup is None,
            Command::Down => step == Step::Continue && next.app@ == app.moved_by(1)
                && next.popup is None,
            Command::Up => step == Step::Continue && next.app@ == app.moved_by(-1)
                && next.popup is None,
            Command::JumpToEnd => step == Step::Continue && next.app@ == app.moved_to(-1)
                && next.popup is None,
            Command::OpenFilter => step == Step::Continue && next.app@ == app && (
            next.popup matches Some(Popup::Filter(dialog)) && dialog@.opens_on(books)),
            Command::ResetFilter => step == Step::Continue && next.app@ == app.with_rows(books.ids())
                && next.popup is None,
            Command::OpenEditor => step == Step::Continue && next.app@ == app && match app.selected_id() {
                Some(id) => if books.books@.contains_key(id) {
                    next.popup matches Some(Popup::Book(dialog)) && dialog@ == BookPopupView::opened(
                        books.books@[id]@,
                        books.books@[id].tags.elements(),
                    )
                } else {
                    next.popup is None
                },
                None => next.popup is None,
            },
            Command::RandomJump => step == Step::Continue && next.popup is None && (exists|
                row: usize,
            |
                next.app@ == #[trigger] app.on_row(row)),
            Command::Nothing => step == Step::Continue && next.app@ == app && next.popup is None,
        }
    }

    /// Whether the key leads from the interface `before` and the bookcase
    /// `books` to the interface `next`, the bookcase `books_after` and
    /// `step`.
    ///
    /// With no dialog open the key goes to the table. With the filter
    /// dialog open it goes to the dialog; when that is confirmed, the table
    /// keeps the rows that pass its filter. With the editor open it goes to
    /// the editor; when that is confirmed, its book is written back under
    /// the id in the row under the cursor. Only the editor, confirmed,
    /// changes the bookcase, and only a key that asks the table to quit
    /// ends the interface.
    pub open spec fn steps_to(
        before: Tui,
        books: Bookcase,
        key: Key,
        next: Tui,
        books_after: Bookcase,
        step: Step,
    ) -> bool {
        match before.popup {
            None => books_after == books && Self::browses_to(
                before.app@,
                books,
                key.command_spec(),
                next,
                step,
            ),
            Some(Popup::Filter(dialog)) => step == Step::Continue && books_after == books && match key {
                Key::Enter => next.popup is None && next.app@ == before.app@.with_rows(
                    kept(books@, dialog@.committed(), before.app@.visible),
                ),
                Key::Esc => next.popup is None && next.app@ == before.app@,
                _ => next.app@ == before.app@ && (next.popup matches Some(Popup::Filter(d)) && d@
                    == dialog@.after_key(key)),
            },
            Some(Popup::Book(dialog)) => step == Step::Continue && next.app@ == before.app@ && match key {
                Key::Enter => next.popup is None && match before.app@.selected_id() {
                    Some(id) => Self::written_back(books, books_after, id, dialog@.committed()),
                    None => books_after == books,
                },
                Key::Esc => next.popup is None && books_after == books,
                _ => books_after == books && (next.popup matches Some(Popup::Book(d)) && d@
                    == dialog@.after_key(key)),
            },
        }
    }

    /// The interface on the bookcase: the table of all its books, and no
    /// dialog.
    pub fn new(bookcase: &Bookcase) -> (r: Tui)
        ensures
            r.popup is None,
            r.app@ == (AppView {
                visible: bookcase.ids(),
                cursor: if bookcase.ids().len() > 0 {
                    Some(0usize)
                } else {
                    None
                },
            }),
    {
        Tui { app: App::new(bookcase), popup: None }
    }

    /// What a key does while no dialog is open.
    fn browse(&mut self, bookcase: &Bookcase, key: Key) -> (r: Step)
        requires
            old(self).popup is None,
        ensures
            Self::browses_to(old(self).app@, *bookcase, key.command_spec(), *final(self), r),
    {
        match key.command() {
            Command::Quit => {
                return Step::Quit;
            },
            Command::Down => self.app.move_by(1),
            Command::Up => self.app.move_by(-1),
            Command::JumpToEnd => self.app.move_to(-1),
            Command::OpenFilter => {
                self.popup = Some(Popup::Filter(FilterPopupApp::new(bookcase)));
            },
            Command::ResetFilter => self.app.reset_visible(bookcase),
            Command::OpenEditor => {
                if let Some(id) = self.app.selected_id() {
                    if let Some(book) = bookcase.get_book(id) {
                        self.popup = Some(Popup::Book(BookPopupApp::new(book)));
                    }
                }
            },
            Command::RandomJump => self.app.random_jump(),
            Command::Nothing => {},
        }
        Step::Continue
    }

    /// Takes a key press: see `steps_to`.
    pub fn on_key(&mut self, bookcase: &mut Bookcase, key: Key) -> (r: Step)
        ensures
            Self::steps_to(*old(self), *old(bookcase), key, *final(self), *final(bookcase), r),
    {
        match self.popup.take() {
            None => self.browse(bookcase, key),
            Some(Popup::Filter(dialog)) => {
                match dialog.step(key) {
                    FilterPopupStep::Continue(next) => {
                        self.popup = Some(Popup::Filter(next));
                    },
                    FilterPopupStep::Commit(filter) => {
                        self.app.filter_currently_visible(bookcase, &filter);
                    },
                    FilterPopupStep::Cancel => {},
                }
                Step::Continue
            },
            Some(Popup::Book(dialog)) => {
                match dialog.step(key) {
                    BookPopupStep::Continue(next) => {
                        self.popup = Some(Popup::Book(next));
                    },
                    BookPopupStep::Commit(book) => {
                        if let Some(id) = self.app.selected_id() {
                            bookcase.replace_book(id, book);
                        }
                    },
                    BookPopupStep::Cancel => {},
                }
                Step::Continue
            },
        }
    }
}

} // verus!
