//! The dialog in which a filter is put together from the authors, the
//! reading states and the tags of a bookcase.

use crate::book::Read;
use crate::books::Bookcase;
use crate::filter::{Filter, FilterView};
use crate::tags::{first_occurrences, texts};
use crate::tui::key::Key;
use crate::tui::select::{SelectableList, SelectableListView, SelectionChange};
use vstd::prelude::*;
use vstd::string::StringExecFns;

verus! {

/// The list that takes the input.
#[derive(Clone, Copy, Debug, PartialEq, Eq, Structural)]
pub enum FilterPopupField {
    Author,
    Read,
    Tags,
}

impl FilterPopupField {
    /// The list after this one: authors, reading states, tags, and authors
    /// again.
    pub open spec fn next_spec(self) -> FilterPopupField {
        match self {
            FilterPopupField::Author => FilterPopupField::Read,
            FilterPopupField::Read => FilterPopupField::Tags,
            FilterPopupField::Tags => FilterPopupField::Author,
        }
    }

    /// The list after this one.
    pub fn next(&self) -> (r: FilterPopupField)
        ensures
            r == self.next_spec(),
    {
        match self {
            FilterPopupField::Author => FilterPopupField::Read,
            FilterPopupField::Read => FilterPopupField::Tags,
            FilterPopupField::Tags => FilterPopupField::Author,
        }
    }
}

/// What the dialog holds: the three lists and which of them takes the
/// input.
pub struct FilterPopupView {
    pub authors: SelectableListView<String>,
    pub read: SelectableListView<Read>,
    pub tags: SelectableListView<String>,
    pub current_field: FilterPopupField,
}

impl FilterPopupView {
    /// The list of the current field shows its cursor, and no other list
    /// does.
    pub open spec fn one_list_active(self) -> bool {
        &&& self.authors.active == (self.current_field == FilterPopupField::Author)
        &&& self.read.active == (self.current_field == FilterPopupField::Read)
        &&& self.tags.active == (self.current_field == FilterPopupField::Tags)
    }

    /// Whether the dialog is as it opens on the bookcase: the lists hold
    /// the authors of the bookcase in the order in which its books first
    /// name them, the four reading states, and the tags of the bookcase,
    /// each once; nothing is selected, and the list of the authors takes
    /// the input.
    pub open spec fn opens_on(self, books: Bookcase) -> bool {
        &&& self.current_field == FilterPopupField::Author
        &&& self.one_list_active()
        &&& self.authors == fresh_list(self.authors.values, true)
        &&& texts(self.authors.values) == first_occurrences(books.author_list())
        &&& self.read == fresh_list(Read::all_spec(), false)
        &&& self.tags == fresh_list(self.tags.values, false)
        &&& texts(self.tags.values).no_duplicates()
        &&& texts(self.tags.values).to_set() == books.all_tags()
    }

    /// The dialog after the cursor of the current list has moved by
    /// `delta` rows.
    pub open spec fn moved_by(self, delta: int) -> FilterPopupView {
        match self.current_field {
            FilterPopupField::Author => FilterPopupView {
                authors: self.authors.moved_by(delta),
                ..self
            },
            FilterPopupField::Read => FilterPopupView { read: self.read.moved_by(delta), ..self },
            FilterPopupField::Tags => FilterPopupView { tags: self.tags.moved_by(delta), ..self },
        }
    }

    /// The dialog after a change to the mark under the cursor of the
    /// current list.
    pub open spec fn changed(self, switch: SelectionChange) -> FilterPopupView {
        match self.current_field {
            FilterPopupField::Author => FilterPopupView {
                authors: self.authors.changed(switch),
                ..self
            },
            FilterPopupField::Read => FilterPopupView { read: self.read.changed(switch), ..self },
            FilterPopupField::Tags => FilterPopupView { tags: self.tags.changed(switch), ..self },
        }
    }

    /// The dialog after the input has gone to the given list: that list
    /// shows its cursor and no other list does.
    pub open spec fn switched(self, field: FilterPopupField) -> FilterPopupView {
        FilterPopupView {
            authors: SelectableListView {
                active: field == FilterPopupField::Author,
                ..self.authors
            },
            read: SelectableListView { active: field == FilterPopupField::Read, ..self.read },
            tags: SelectableListView { active: field == FilterPopupField::Tags, ..self.tags },
            current_field: field,
        }
    }

    /// The dialog after the input has gone on to the next list.
    pub open spec fn tabbed(self) -> FilterPopupView {
        self.switched(self.current_field.next_spec())
    }

    /// The dialog after a key that neither confirms it nor closes it.
    pub open spec fn after_key(self, key: Key) -> FilterPopupView {
        match key {
            Key::Up => self.moved_by(-1),
            Key::Down => self.moved_by(1),
            Key::Char(c) => if c == 'k' {
                self.moved_by(-1)
            } else if c == 'j' {
                self.moved_by(1)
            } else {
                self
            },
            Key::Backspace => self.changed(SelectionChange::Deselect),
            Key::Delete => self.changed(SelectionChange::Deselect),
            Key::Tab => self.tabbed(),
            Key::Left => self.changed(SelectionChange::Toggle),
            Key::Right => self.changed(SelectionChange::Toggle),
            _ => self,
        }
    }

    /// The filter that the dialog hands back when it is confirmed: in each
    /// dimension the selected values of the list, in the order of the
    /// list.
    pub open spec fn committed(self) -> FilterView {
        FilterView {
            author_match: texts(self.authors.selected_values()),
            read_match: self.read.selected_values(),
            tag_match: texts(self.tags.selected_values()),
        }
    }
}

/// The dialog.
#[derive(Debug)]
pub struct FilterPopupApp {
    authors: SelectableList<String>,
    read: SelectableList<Read>,
    tags: SelectableList<String>,
    current_field: FilterPopupField,
}

impl View for FilterPopupApp {
    type V = FilterPopupView;

    closed spec fn view(&self) -> FilterPopupView {
        FilterPopupView {
            authors: self.authors@,
            read: self.read@,
            tags: self.tags@,
            current_field: self.current_field,
        }
    }
}

/// What a key press leads to in the dialog.
#[derive(Debug)]
pub enum FilterPopupStep {
    /// The dialog stays open.
    Continue(FilterPopupApp),
    /// The dialog is confirmed and hands back the filter.
    Commit(Filter),
    /// The dialog is closed and the selection is dropped.
    Cancel,
}

/// A list in which nothing is selected, with the cursor on the first row.
pub open spec fn fresh_list<T>(values: Seq<T>, active: bool) -> SelectableListView<T> {
    SelectableListView {
        values,
        selected: Seq::new(values.len(), |i: int| false),
        cursor: 0,
        active,
    }
}

impl FilterPopupApp {
    /// The dialog on what the bookcase holds: its authors in the order in
    /// which its books first name them, the four reading states, and its
    /// tags. Nothing is selected, and the list of the authors takes the
    /// input.
    pub fn new(books: &Bookcase) -> (r: FilterPopupApp)
        ensures
            r@.opens_on(*books),
    {
        let states = Read::all();
        let mut state_list: Vec<Read> = Vec::new();
        let mut i: usize = 0;
        while i < 4
            invariant
                i <= 4,
                states@ == Read::all_spec(),
                state_list@ == Read::all_spec().take(i as int),
            decreases 4 - i,
        {
            state_list.push(states[i]);
            assert(state_list@ =~= Read::all_spec().take(i + 1));
            i += 1;
        }
        assert(state_list@ =~= Read::all_spec());
        let read = SelectableList::new(state_list);

        let names = books.get_authors();
        let mut author_list: Vec<String> = Vec::new();
        let mut k: usize = 0;
        while k < names.len()
            invariant
                k <= names@.len(),
                author_list@.len() == k,
                forall|j: int| 0 <= j < k ==> author_list@[j]@ == names@[j]@,
            decreases names@.len() - k,
        {
            author_list.push(String::from_str(names[k]));
            k += 1;
        }
        assert(texts(author_list@) =~= crate::books::slice_texts(names@));
        let mut authors = SelectableList::new(author_list);
        let tags = SelectableList::new(books.get_tags());
        authors.activate();
        FilterPopupApp { authors, read, tags, current_field: FilterPopupField::Author }
    }

    /// The list that takes the input.
    pub fn current_field(&self) -> (r: FilterPopupField)
        ensures
            r == self@.current_field,
    {
        self.current_field
    }

    /// The list of the authors.
    pub fn authors(&self) -> (r: &SelectableList<String>)
        ensures
            r@ == self@.authors,
    {
        &self.authors
    }

    /// The list of the reading states.
    pub fn read(&self) -> (r: &SelectableList<Read>)
        ensures
            r@ == self@.read,
    {
        &self.read
    }

    /// The list of the tags.
    pub fn tags(&self) -> (r: &SelectableList<String>)
        ensures
            r@ == self@.tags,
    {
        &self.tags
    }

    /// Moves the cursor of the current list by `delta` rows.
    pub fn move_by(&mut self, delta: isize)
        ensures
            final(self)@ == old(self)@.moved_by(delta as int),
    {
        match self.current_field {
            FilterPopupField::Author => self.authors.move_by(delta),
            FilterPopupField::Read => self.read.move_by(delta),
            FilterPopupField::Tags => self.tags.move_by(delta),
        }
    }

    /// In the current list, selects the row under the cursor if it is not
    /// selected, and takes the selection from it if it is.
    pub fn toggle(&mut self)
        ensures
            final(self)@ == old(self)@.changed(SelectionChange::Toggle),
    {
        match self.current_field {
            FilterPopupField::Author => self.authors.change_selection(SelectionChange::Toggle),
            FilterPopupField::Read => self.read.change_selection(SelectionChange::Toggle),
            FilterPopupField::Tags => self.tags.change_selection(SelectionChange::Toggle),
        }
    }

    /// In the current list, takes the selection from the row under the
    /// cursor.
    pub fn deselect(&mut self)
        ensures
            final(self)@ == old(self)@.changed(SelectionChange::Deselect),
    {
        match self.current_field {
            FilterPopupField::Author => self.authors.change_selection(SelectionChange::Deselect),
            FilterPopupField::Read => self.read.change_selection(SelectionChange::Deselect),
            FilterPopupField::Tags => self.tags.change_selection(SelectionChange::Deselect),
        }
    }

    /// Gives the input to the given list. That list shows its cursor
    /// afterwards, and no other list does.
    pub fn switch_fields(&mut self, new_field: FilterPopupField)
        ensures
            final(self)@ == old(self)@.switched(new_field),
            final(self)@.one_list_active(),
    {
        self.authors.deactivate();
        self.read.deactivate();
        self.tags.deactivate();
        self.current_field = new_field;
        match self.current_field {
            FilterPopupField::Author => self.authors.activate(),
            FilterPopupField::Read => self.read.activate(),
            FilterPopupField::Tags => self.tags.activate(),
        }
    }

    /// Gives the input to the next list.
    pub fn tab(&mut self)
        ensures
            final(self)@ == old(self)@.tabbed(),
            final(self)@.one_list_active(),
    {
        self.switch_fields(self.current_field.next())
    }

    /// The filter that the selection stands for.
    pub fn into_filter(self) -> (r: Filter)
        ensures
            r@ == self@.committed(),
    {
        Filter {
            author_match: self.authors.to_selected_values(),
            read_match: self.read.to_selected_values(),
            tag_match: self.tags.to_selected_values(),
        }
    }

    /// What the key does to the dialog: Enter confirms it, Escape closes
    /// it, `k` and Up, `j` and Down move the cursor of the current list,
    /// Backspace and Delete take the selection from the row under it, Left
    /// and Right toggle it, Tab gives the input to the next list, and any
    /// other key changes nothing.
    pub fn step(self, key: Key) -> (r: FilterPopupStep)
        ensures
            match key {
                Key::Enter => r matches FilterPopupStep::Commit(filter) && filter@ == self@.committed(),
                Key::Esc => r is Cancel,
                _ => r matches FilterPopupStep::Continue(next) && next@ == self@.after_key(key),
            },
    {
        let mut app = self;
        match key {
            Key::Enter => {
                return FilterPopupStep::Commit(app.into_filter());
            },
            Key::Esc => {
                return FilterPopupStep::Cancel;
            },
            Key::Up => app.move_by(-1),
            Key::Down => app.move_by(1),
            Key::Char(c) => {
                if c == 'k' {
                    app.move_by(-1)
                } else if c == 'j' {
                    app.move_by(1)
                }
            },
            Key::Backspace => app.deselect(),
            Key::Delete => app.deselect(),
            Key::Tab => app.tab(),
            Key::Left => app.toggle(),
            Key::Right => app.toggle(),
            _ => {},
        }
        FilterPopupStep::Continue(app)
    }
}

} // verus!
