//! The dialog that edits the title, the author and the tags of one book.

use crate::book::{Book, BookView, Read};
use crate::tags::{texts, TagSet};
use crate::text::{pop_char, push_char};
use crate::tui::key::Key;
use vstd::prelude::*;
use vstd::string::StringExecFns;

verus! {

/// The character that ends a tag and begins the next one.
pub const SEPARATOR_CHAR: char = ',';

/// The field that takes the input.
#[derive(Clone, Copy, Debug, PartialEq, Eq, Structural)]
pub enum BookPopupField {
    Title,
    Author,
    Tags,
}

impl BookPopupField {
    /// The field after this one: title, author, tags, and title again.
    pub open spec fn next_spec(self) -> BookPopupField {
        match self {
            BookPopupField::Title => BookPopupField::Author,
            BookPopupField::Author => BookPopupField::Tags,
            BookPopupField::Tags => BookPopupField::Title,
        }
    }
}

/// The parts with the separator between each two neighbours.
pub open spec fn joined(parts: Seq<Seq<char>>, separator: char) -> Seq<char>
    decreases parts.len(),
{
    if parts.len() == 0 {
        Seq::empty()
    } else if parts.len() == 1 {
        parts[0]
    } else {
        joined(parts.drop_last(), separator).push(separator) + parts.last()
    }
}

/// What the dialog holds: the texts as typed so far, the reading state of
/// the book, and the field that takes the input.
pub struct BookPopupView {
    pub title: Seq<char>,
    pub author: Seq<char>,
    pub read: Read,
    /// The tags as typed; the last one is the one being typed.
    pub tags: Seq<Seq<char>>,
    pub current_field: BookPopupField,
}

impl BookPopupView {
    /// The dialog as it opens on a book whose tags are listed in `tags`.
    pub open spec fn opened(book: BookView, tags: Seq<Seq<char>>) -> BookPopupView {
        BookPopupView {
            title: book.title,
            author: book.author,
            read: book.read,
            tags,
            current_field: BookPopupField::Title,
        }
    }

    /// The dialog after the input has gone on to the next field.
    pub open spec fn tabbed(self) -> BookPopupView {
        BookPopupView { current_field: self.current_field.next_spec(), ..self }
    }

    /// The tags after a character has been typed into them: the separator
    /// ends the tag being typed and begins an empty one, any other
    /// character goes to the end of the tag being typed. Where no tag has
    /// been begun, the character, whichever it is, begins one.
    pub open spec fn tags_typed(tags: Seq<Seq<char>>, c: char) -> Seq<Seq<char>> {
        if tags.len() == 0 {
            seq![seq![c]]
        } else if c == SEPARATOR_CHAR {
            tags.push(Seq::empty())
        } else {
            tags.drop_last().push(tags.last().push(c))
        }
    }

    /// The tags after the last character has been erased: the tag being
    /// typed loses its last character. It leaves the list if it was empty
    /// already, or if it becomes empty and is not the only tag.
    pub open spec fn tags_erased(tags: Seq<Seq<char>>) -> Seq<Seq<char>> {
        if tags.len() == 0 {
            tags
        } else if tags.last().len() == 0 {
            tags.drop_last()
        } else if tags.last().len() == 1 && tags.len() > 1 {
            tags.drop_last()
        } else {
            tags.drop_last().push(tags.last().drop_last())
        }
    }

    /// The dialog after a character has been typed into the current field.
    pub open spec fn typed(self, c: char) -> BookPopupView {
        match self.current_field {
            BookPopupField::Title => BookPopupView { title: self.title.push(c), ..self },
            BookPopupField::Author => BookPopupView { author: self.author.push(c), ..self },
            BookPopupField::Tags => BookPopupView { tags: Self::tags_typed(self.tags, c), ..self },
        }
    }

    /// The dialog after the last character of the current field has been
    /// erased. An empty field stays empty.
    pub open spec fn erased(self) -> BookPopupView {
        match self.current_field {
            BookPopupField::Title => BookPopupView {
                title: if self.title.len() == 0 {
                    self.title
                } else {
                    self.title.drop_last()
                },
                ..self
            },
            BookPopupField::Author => BookPopupView {
                author: if self.author.len() == 0 {
                    self.author
                } else {
                    self.author.drop_last()
                },
                ..self
            },
            BookPopupField::Tags => BookPopupView { tags: Self::tags_erased(self.tags), ..self },
        }
    }

    /// The book that the dialog hands back when it is confirmed: the texts
    /// as typed, the reading state as it was, and the set of the tags.
    pub open spec fn committed(self) -> BookView {
        BookView {
            title: self.title,
            author: self.author,
            read: self.read,
            tags: self.tags.to_set(),
        }
    }

    /// The dialog after a key that neither confirms it nor closes it.
    pub open spec fn after_key(self, key: Key) -> BookPopupView {
        match key {
            Key::Tab => self.tabbed(),
            Key::Backspace => self.erased(),
            Key::Char(c) => self.typed(c),
            _ => self,
        }
    }

    /// The text of the tags field: the tags with the separator between
    /// them.
    pub open spec fn tags_text(self) -> Seq<char> {
        joined(self.tags, SEPARATOR_CHAR)
    }
}

/// A dialog that is confirmed without any input hands back the book that
/// it was opened on.
pub proof fn lemma_commit_without_input(book: BookView, tags: Seq<Seq<char>>)
    requires
        tags.to_set() == book.tags,
    ensures
        BookPopupView::opened(book, tags).committed() == book,
{
}

/// The dialog.
#[derive(Debug)]
pub struct BookPopupApp {
    book: Book,
    tags: Vec<String>,
    current_field: BookPopupField,
}

impl View for BookPopupApp {
    type V = BookPopupView;

    closed spec fn view(&self) -> BookPopupView {
        BookPopupView {
            title: self.book.title@,
            author: self.book.author@,
            read: self.book.read,
            tags: texts(self.tags@),
            current_field: self.current_field,
        }
    }
}

/// What a key press leads to in the dialog.
#[derive(Debug)]
pub enum BookPopupStep {
    /// The dialog stays open.
    Continue(BookPopupApp),
    /// The dialog is confirmed and hands back the edited book.
    Commit(Book),
    /// The dialog is closed and the edits are dropped.
    Cancel,
}

impl BookPopupApp {
    /// The dialog on a copy of the book, with the input in the title.
    pub fn new(book: &Book) -> (r: BookPopupApp)
        ensures
            r@ == BookPopupView::opened(book@, book.tags.elements()),
            book.tags.elements().to_set() == book@.tags,
    {
        let tags = book.tags.to_vec();
        BookPopupApp { book: book.clone(), tags, current_field: BookPopupField::Title }
    }

    /// The field that takes the input.
    pub fn current_field(&self) -> (r: BookPopupField)
        ensures
            r == self@.current_field,
    {
        self.current_field
    }

    /// The title as typed so far.
    pub fn title(&self) -> (r: &str)
        ensures
            r@ == self@.title,
    {
        self.book.title.as_str()
    }

    /// The author as typed so far.
    pub fn author(&self) -> (r: &str)
        ensures
            r@ == self@.author,
    {
        self.book.author.as_str()
    }

    /// The reading state of the book, which the dialog shows and does not
    /// change.
    pub fn read_state(&self) -> (r: Read)
        ensures
            r == self@.read,
    {
        self.book.read
    }

    /// The text of the tags field.
    pub fn tags_text(&self) -> (r: String)
        ensures
            r@ == self@.tags_text(),
    {
        let mut out = String::new();
        let mut i: usize = 0;
        let ghost parts = texts(self.tags@);
        while i < self.tags.len()
            invariant
                i <= self.tags@.len(),
                parts == texts(self.tags@),
                out@ == joined(parts.take(i as int), SEPARATOR_CHAR),
            decreases self.tags@.len() - i,
        {
            proof {
                assert(parts.take(i + 1).drop_last() =~= parts.take(i as int));
                assert(parts.take(i + 1).last() == self.tags@[i as int]@);
                if i == 0 {
                    assert(out@ + self.tags@[0]@ =~= self.tags@[0]@);
                }
            }
            if i > 0 {
                push_char(&mut out, SEPARATOR_CHAR);
            }
            out.append(self.tags[i].as_str());
            i += 1;
        }
        assert(parts.take(self.tags@.len() as int) =~= parts);
        out
    }

    /// Moves the input on to the next field.
    pub fn tab(&mut self)
        ensures
            final(self)@ == old(self)@.tabbed(),
    {
        self.current_field =
        match self.current_field {
            BookPopupField::Title => BookPopupField::Author,
            BookPopupField::Author => BookPopupField::Tags,
            BookPopupField::Tags => BookPopupField::Title,
        }
    }

    /// Erases the last character of the current field.
    pub fn backspace(&mut self)
        ensures
            final(self)@ == old(self)@.erased(),
    {
        match self.current_field {
            BookPopupField::Author => {
                pop_char(&mut self.book.author);
            },
            BookPopupField::Title => {
                pop_char(&mut self.book.title);
            },
            BookPopupField::Tags => {
                let ghost before = texts(self.tags@);
                match self.tags.pop() {
                    Some(mut t) => {
                        let others = self.tags.len() > 0;
                        assert(texts(self.tags@) =~= before.drop_last());
                        if pop_char(&mut t).is_some() {
                            if !t.as_str().is_empty() || !others {
                                self.tags.push(t);
                                assert(texts(self.tags@) =~= before.drop_last().push(
                                    before.last().drop_last(),
                                ));
                            }
                        }
                    },
                    None => {
                        assert(texts(self.tags@) =~= before);
                    },
                }
            },
        }
    }

    /// Types a character into the current field.
    pub fn input(&mut self, value: char)
        ensures
            final(self)@ == old(self)@.typed(value),
    {
        match self.current_field {
            BookPopupField::Author => push_char(&mut self.book.author, value),
            BookPopupField::Title => push_char(&mut self.book.title, value),
            BookPopupField::Tags => {
                let ghost before = texts(self.tags@);
                match self.tags.pop() {
                    Some(mut t) => {
                        if value == SEPARATOR_CHAR {
                            self.tags.push(t);
                            self.tags.push(String::new());
                            assert(texts(self.tags@) =~= before.push(Seq::empty()));
                        } else {
                            push_char(&mut t, value);
                            self.tags.push(t);
                            assert(texts(self.tags@) =~= before.drop_last().push(
                                before.last().push(value),
                            ));
                        }
                    },
                    None => {
                        let mut t = String::new();
                        push_char(&mut t, value);
                        self.tags.push(t);
                        assert(t@ =~= seq![value]);
                        assert(texts(self.tags@) =~= seq![seq![value]]);
                    },
                }
            },
        }
    }

    /// The edited book: the texts as typed, the reading state as it was,
    /// and the set of the tags.
    pub fn into_book(self) -> (r: Book)
        ensures
            r@ == self@.committed(),
    {
        let mut book = self.book;
        book.tags = TagSet::from_vec(self.tags);
        book
    }

    /// What the key does to the dialog: Enter confirms it, Escape closes
    /// it, Tab moves the input on, Backspace erases, a character is typed,
    /// and any other key changes nothing.
    pub fn step(self, key: Key) -> (r: BookPopupStep)
        ensures
            match key {
                Key::Enter => r matches BookPopupStep::Commit(book) && book@ == self@.committed(),
                Key::Esc => r is Cancel,
                _ => r matches BookPopupStep::Continue(next) && next@ == self@.after_key(key),
            },
    {
        let mut app = self;
        match key {
            Key::Enter => BookPopupStep::Commit(app.into_book()),
            Key::Esc => BookPopupStep::Cancel,
            Key::Tab => {
                app.tab();
                BookPopupStep::Continue(app)
            },
            Key::Backspace => {
                app.backspace();
                BookPopupStep::Continue(app)
            },
            Key::Char(value) => {
                app.input(value);
                BookPopupStep::Continue(app)
            },
            _ => BookPopupStep::Continue(app),
        }
    }
}

} // verus!
