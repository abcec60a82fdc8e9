//! A list of values of which any number can be selected, with a cursor
//! that moves over them.

use crate::book::Read;
use crate::tui::nav::{move_by, moved};
use vstd::prelude::*;
use vstd::string::StringExecFns;

verus! {

/// What to do with the selection mark of the row under the cursor.
#[derive(Clone, Copy, Debug, PartialEq, Eq, Structural)]
pub enum SelectionChange {
    Select,
    Deselect,
    Toggle,
}

impl SelectionChange {
    /// The mark after the change, given the mark before it.
    pub open spec fn apply(self, mark: bool) -> bool {
        match self {
            SelectionChange::Select => true,
            SelectionChange::Deselect => false,
            SelectionChange::Toggle => !mark,
        }
    }
}

/// A value that a list shows under a label.
pub trait Label {
    /// The label.
    spec fn label_text(&self) -> Seq<char>;

    /// The label as a string.
    fn label(&self) -> (r: String)
        ensures
            r@ == self.label_text(),
    ;
}

impl Label for String {
    open spec fn label_text(&self) -> Seq<char> {
        self@
    }

    fn label(&self) -> (r: String) {
        self.clone()
    }
}

impl Label for Read {
    open spec fn label_text(&self) -> Seq<char> {
        self.name()
    }

    fn label(&self) -> (r: String) {
        self.to_string()
    }
}

/// The mark in front of a row: `X` for a selected row, a blank otherwise.
pub open spec fn selected_symbol_text(b: bool) -> Seq<char> {
    if b {
        "X"@
    } else {
        " "@
    }
}

/// The text of a row: the mark in square brackets, a blank, the label.
pub open spec fn row_text(selected: bool, label: Seq<char>) -> Seq<char> {
    "["@ + selected_symbol_text(selected) + "] "@ + label
}

/// The mark in front of a row: `X` for a selected row, a blank otherwise.
pub fn selected_symbol(b: bool) -> (r: &'static str)
    ensures
        r@ == selected_symbol_text(b),
{
    match b {
        true => "X",
        false => " ",
    }
}

/// Those of the values whose mark is set, in the order of the values.
pub open spec fn chosen<T>(values: Seq<T>, selected: Seq<bool>) -> Seq<T>
    decreases values.len(),
{
    if values.len() == 0 || selected.len() == 0 {
        Seq::empty()
    } else {
        let before = chosen(values.drop_last(), selected.drop_last());
        if selected.last() {
            before.push(values.last())
        } else {
            before
        }
    }
}

/// How many of the marks are set.
pub open spec fn count_set(selected: Seq<bool>) -> nat
    decreases selected.len(),
{
    if selected.len() == 0 {
        0
    } else {
        count_set(selected.drop_last()) + if selected.last() {
            1nat
        } else {
            0nat
        }
    }
}

/// The chosen values are exactly the values at the positions whose mark
/// is set, in the order of these positions: there are as many as marks
/// are set, and the value at such a position stands among them after as
/// many values as marks are set before the position.
pub proof fn lemma_chosen<T>(values: Seq<T>, selected: Seq<bool>)
    requires
        values.len() == selected.len(),
    ensures
        chosen(values, selected).len() == count_set(selected),
        forall|i: int|
            0 <= i < values.len() && selected[i] ==> 0 <= count_set(#[trigger] selected.take(i))
                < count_set(selected) && chosen(values, selected)[count_set(selected.take(i)) as int]
                == values[i],
    decreases values.len(),
{
    if values.len() > 0 {
        let vs = values.drop_last();
        let ss = selected.drop_last();
        let n = values.len() - 1;
        lemma_chosen(vs, ss);
        assert(selected.take(n) =~= ss);
        assert forall|i: int| 0 <= i < values.len() && selected[i] implies 0 <= count_set(
            #[trigger] selected.take(i),
        ) < count_set(selected) && chosen(values, selected)[count_set(selected.take(i)) as int]
            == values[i] by {
            if i < n {
                assert(selected.take(i) =~= ss.take(i));
            }
        }
    }
}

/// What a selectable list holds.
pub struct SelectableListView<T> {
    /// The values, which never change.
    pub values: Seq<T>,
    /// For each value, whether it is selected.
    pub selected: Seq<bool>,
    /// The row under the cursor.
    pub cursor: nat,
    /// Whether the cursor is shown.
    pub active: bool,
}

impl<T> SelectableListView<T> {
    /// There is a mark for each value, and the cursor is on a row, or on 0
    /// in a list without rows.
    pub open spec fn wf(self) -> bool {
        &&& self.values.len() == self.selected.len()
        &&& (self.cursor < self.values.len() || (self.values.len() == 0 && self.cursor == 0))
    }

    /// The list after a move of the cursor by `delta` rows. An empty list
    /// stays as it is.
    pub open spec fn moved_by(self, delta: int) -> Self {
        if self.values.len() == 0 {
            self
        } else {
            SelectableListView {
                cursor: moved(self.cursor as int, delta, self.values.len() as int) as nat,
                ..self
            }
        }
    }

    /// The list after a change to the mark under the cursor. An empty list
    /// stays as it is.
    pub open spec fn changed(self, switch: SelectionChange) -> Self {
        if self.values.len() == 0 {
            self
        } else {
            SelectableListView {
                selected: self.selected.update(
                    self.cursor as int,
                    switch.apply(self.selected[self.cursor as int]),
                ),
                ..self
            }
        }
    }

    /// The selected values in the order of the list.
    pub open spec fn selected_values(self) -> Seq<T> {
        chosen(self.values, self.selected)
    }

    /// The row that is shown as the one under the cursor, if the list shows
    /// its cursor.
    pub open spec fn highlighted(self) -> Option<usize> {
        if self.active {
            Some(self.cursor as usize)
        } else {
            None
        }
    }
}

/// A list of values, a selection mark for each, and a cursor.
#[derive(Debug)]
pub struct SelectableList<T> {
    values: Vec<T>,
    selected: Vec<bool>,
    cursor_position: usize,
    active: bool,
}

impl<T> View for SelectableList<T> {
    type V = SelectableListView<T>;

    closed spec fn view(&self) -> SelectableListView<T> {
        SelectableListView {
            values: self.values@,
            selected: self.selected@,
            cursor: self.cursor_position as nat,
            active: self.active,
        }
    }
}

impl<T> SelectableList<T> {
    #[verifier::type_invariant]
    spec fn inv(&self) -> bool {
        self@.wf()
    }

    /// A list of the given values with nothing selected, the cursor on the
    /// first row and not shown.
    pub fn new(values: Vec<T>) -> (r: Self)
        ensures
            r@ == (SelectableListView {
                values: values@,
                selected: Seq::new(values@.len(), |i: int| false),
                cursor: 0,
                active: false,
            }),
    {
        let mut selected: Vec<bool> = Vec::new();
        let mut i: usize = 0;
        while i < values.len()
            invariant
                i <= values@.len(),
                selected@ == Seq::new(i as nat, |k: int| false),
            decreases values@.len() - i,
        {
            selected.push(false);
            assert(selected@ =~= Seq::new((i + 1) as nat, |k: int| false));
            i += 1;
        }
        SelectableList { values, selected, cursor_position: 0, active: false }
    }

    /// The number of rows.
    pub fn len(&self) -> (r: usize)
        ensures
            r == self@.values.len(),
            self@.wf(),
    {
        proof {
            use_type_invariant(self);
        }
        self.values.len()
    }

    /// The values.
    pub fn values(&self) -> (r: &Vec<T>)
        ensures
            r@ == self@.values,
    {
        &self.values
    }

    /// The selection marks, one for each value.
    pub fn selected(&self) -> (r: &Vec<bool>)
        ensures
            r@ == self@.selected,
            r@.len() == self@.values.len(),
    {
        proof {
            use_type_invariant(self);
        }
        &self.selected
    }

    /// The row under the cursor.
    pub fn cursor_position(&self) -> (r: usize)
        ensures
            r == self@.cursor,
            self@.wf(),
    {
        proof {
            use_type_invariant(self);
        }
        self.cursor_position
    }

    /// The row to show as the one under the cursor, if the list shows its
    /// cursor.
    pub fn highlighted(&self) -> (r: Option<usize>)
        ensures
            r == self@.highlighted(),
    {
        if self.active {
            Some(self.cursor_position)
        } else {
            None
        }
    }

    /// Moves the cursor by `delta` rows.
    pub fn move_by(&mut self, delta: isize)
        ensures
            final(self)@ == old(self)@.moved_by(delta as int),
    {
        proof {
            use_type_invariant(&*self);
        }
        if self.values.len() > 0 {
            self.cursor_position = move_by(self.cursor_position, delta, self.values.len());
        }
    }

    /// Changes the mark of the row under the cursor.
    pub fn change_selection(&mut self, switch: SelectionChange)
        ensures
            final(self)@ == old(self)@.changed(switch),
    {
        proof {
            use_type_invariant(&*self);
        }
        if self.cursor_position < self.selected.len() {
            let mark = self.selected[self.cursor_position];
            let after = match switch {
                SelectionChange::Select => true,
                SelectionChange::Deselect => false,
                SelectionChange::Toggle => !mark,
            };
            self.selected[self.cursor_position] = after;
        }
    }

    /// Selects the row under the cursor if it is not selected, and takes
    /// the selection from it if it is.
    pub fn toggle(&mut self)
        ensures
            final(self)@ == old(self)@.changed(SelectionChange::Toggle),
    {
        self.change_selection(SelectionChange::Toggle)
    }

    /// Selects the row under the cursor.
    pub fn select(&mut self)
        ensures
            final(self)@ == old(self)@.changed(SelectionChange::Select),
    {
        self.change_selection(SelectionChange::Select)
    }

    /// Takes the selection from the row under the cursor.
    pub fn deselect(&mut self)
        ensures
            final(self)@ == old(self)@.changed(SelectionChange::Deselect),
    {
        self.change_selection(SelectionChange::Deselect)
    }

    /// Shows the cursor.
    pub fn activate(&mut self)
        ensures
            final(self)@ == (SelectableListView { active: true, ..old(self)@ }),
    {
        proof {
            use_type_invariant(&*self);
        }
        self.active = true;
    }

    /// Hides the cursor.
    pub fn deactivate(&mut self)
        ensures
            final(self)@ == (SelectableListView { active: false, ..old(self)@ }),
    {
        proof {
            use_type_invariant(&*self);
        }
        self.active = false;
    }

    /// The selected values in the order of the list.
    pub fn to_selected_values(self) -> (r: Vec<T>)
        ensures
            r@ == self@.selected_values(),
    {
        proof {
            use_type_invariant(&self);
        }
        let ghost values = self.values@;
        let ghost marks = self.selected@;
        let SelectableList { values: all, selected, .. } = self;
        let mut out: Vec<T> = Vec::new();
        let mut i: usize = 0;
        assert(chosen(values.take(0), marks.take(0)) =~= Seq::empty());
        for v in it: all
            invariant
                it.seq() == values,
                selected@ == marks,
                values.len() == marks.len(),
                i == it.index(),
                out@ == chosen(values.take(i as int), marks.take(i as int)),
        {
            proof {
                assert(values.take(i + 1).drop_last() =~= values.take(i as int));
                assert(marks.take(i + 1).drop_last() =~= marks.take(i as int));
            }
            if selected[i] {
                out.push(v);
            }
            i += 1;
        }
        proof {
            assert(values.take(values.len() as int) =~= values);
            assert(marks.take(marks.len() as int) =~= marks);
        }
        out
    }
}

impl<T: Label> SelectableList<T> {
    /// The text of each row, in the order of the list.
    pub fn rows(&self) -> (r: Vec<String>)
        ensures
            r@.len() == self@.values.len(),
            forall|i: int|
                0 <= i < r@.len() ==> (#[trigger] r@[i])@ == row_text(
                    self@.selected[i],
                    self@.values[i].label_text(),
                ),
    {
        proof {
            use_type_invariant(self);
        }
        let mut out: Vec<String> = Vec::new();
        let mut i: usize = 0;
        while i < self.values.len()
            invariant
                i <= self.values@.len(),
                self.values@.len() == self.selected@.len(),
                out@.len() == i,
                forall|k: int|
                    0 <= k < i ==> (#[trigger] out@[k])@ == row_text(
                        self.selected@[k],
                        self.values@[k].label_text(),
                    ),
            decreases self.values@.len() - i,
        {
            let mut row = String::from_str("[");
            row.append(selected_symbol(self.selected[i]));
            row.append("] ");
            let label = self.values[i].label();
            row.append(label.as_str());
            out.push(row);
            i += 1;
        }
        out
    }
}

} // verus!
