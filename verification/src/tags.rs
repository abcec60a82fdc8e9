//! The set of tags that a book carries.

use crate::text::str_eq;
use vstd::prelude::*;
use vstd::std_specs::cmp::PartialEqSpecImpl;

verus! {

/// The texts of a sequence of strings, in the same order.
pub open spec fn texts(v: Seq<String>) -> Seq<Seq<char>> {
    v.map_values(|s: String| s@)
}

/// The sequence without the repetitions: of each value the first occurrence
/// stays, in its place among the others.
pub open spec fn first_occurrences<A>(s: Seq<A>) -> Seq<A>
    decreases s.len(),
{
    if s.len() == 0 {
        s
    } else {
        let before = first_occurrences(s.drop_last());
        if before.contains(s.last()) {
            before
        } else {
            before.push(s.last())
        }
    }
}

/// A sequence without repetitions stays without them when a value that it
/// does not hold is put at its end.
pub proof fn lemma_push_of_new_value<A>(s: Seq<A>, x: A)
    requires
        s.no_duplicates(),
        !s.contains(x),
    ensures
        s.push(x).no_duplicates(),
{
    assert forall|i: int, j: int|
        0 <= i < s.len() + 1 && 0 <= j < s.len() + 1 && i != j implies s.push(x)[i] != s.push(x)[j] by {
        if i < s.len() {
            assert(s.contains(s[i]));
        }
        if j < s.len() {
            assert(s.contains(s[j]));
        }
    }
}

/// In a sequence without repetitions every value is a first occurrence.
pub proof fn lemma_first_occurrences_of_distinct<A>(s: Seq<A>)
    requires
        s.no_duplicates(),
    ensures
        first_occurrences(s) == s,
    decreases s.len(),
{
    if s.len() > 0 {
        lemma_first_occurrences_of_distinct(s.drop_last());
        if s.drop_last().contains(s.last()) {
            let i = choose|i: int| 0 <= i < s.drop_last().len() && s.drop_last()[i] == s.last();
            assert(s[i] == s[s.len() - 1]);
        }
        assert(s.drop_last().push(s.last()) =~= s);
    }
}

/// The first occurrences of a sequence are its values, each once.
pub proof fn lemma_first_occurrences<A>(s: Seq<A>)
    ensures
        first_occurrences(s).no_duplicates(),
        first_occurrences(s).to_set() == s.to_set(),
    decreases s.len(),
{
    if s.len() == 0 {
        assert(first_occurrences(s).to_set() =~= s.to_set());
    } else {
        let head = s.drop_last();
        let before = first_occurrences(head);
        lemma_first_occurrences(head);
        assert(head.push(s.last()) =~= s);
        head.lemma_push_to_set_commute(s.last());
        if before.contains(s.last()) {
            assert(head.to_set().contains(s.last()));
            assert(s.to_set() =~= head.to_set());
        } else {
            before.lemma_push_to_set_commute(s.last());
            lemma_push_of_new_value(before, s.last());
        }
    }
}

/// A finite set of tags. Its view is the set of their texts.
///
/// The tags are kept in the order in which they were inserted, each text
/// once.
#[derive(Debug)]
pub struct TagSet {
    items: Vec<String>,
}

impl View for TagSet {
    type V = Set<Seq<char>>;

    closed spec fn view(&self) -> Set<Seq<char>> {
        texts(self.items@).to_set()
    }
}

impl TagSet {
    #[verifier::type_invariant]
    spec fn inv(&self) -> bool {
        texts(self.items@).no_duplicates()
    }

    /// The tags in the order in which `to_vec` hands them out.
    pub closed spec fn elements(&self) -> Seq<Seq<char>> {
        texts(self.items@)
    }

    /// The empty set.
    pub fn new() -> (r: TagSet)
        ensures
            r@ == Set::<Seq<char>>::empty(),
            r.elements() == Seq::<Seq<char>>::empty(),
    {
        let r = TagSet { items: Vec::new() };
        assert(texts(r.items@) =~= Seq::empty());
        assert(r@ =~= Set::empty());
        r
    }

    /// The elements are the tags, each once.
    fn distinct(&self)
        ensures
            self.elements().no_duplicates(),
            self.elements().to_set() == self@,
            self.elements().len() == self@.len(),
            self@.finite(),
    {
        proof {
            use_type_invariant(self);
            texts(self.items@).unique_seq_to_set();
        }
    }

    /// The number of tags.
    pub fn len(&self) -> (r: usize)
        ensures
            r == self@.len(),
            r == self.elements().len(),
    {
        self.distinct();
        self.items.len()
    }

    /// Whether the set holds no tag.
    pub fn is_empty(&self) -> (r: bool)
        ensures
            r == (self@.len() == 0),
            r == (self@ == Set::<Seq<char>>::empty()),
    {
        self.distinct();
        proof {
            if self.items@.len() == 0 {
                assert(self@ =~= Set::empty());
            } else {
                assert(texts(self.items@)[0] == self.items@[0]@);
                assert(self@.contains(self.items@[0]@));
            }
        }
        self.items.len() == 0
    }

    /// Where the tag stands among the elements, if it is one of them.
    fn position(&self, tag: &str) -> (r: Option<usize>)
        ensures
            match r {
                Some(i) => i < self.items@.len() && self.items@[i as int]@ == tag@,
                None => !self@.contains(tag@),
            },
    {
        let mut i: usize = 0;
        while i < self.items.len()
            invariant
                i <= self.items@.len(),
                forall|k: int| 0 <= k < i ==> self.items@[k]@ != tag@,
            decreases self.items@.len() - i,
        {
            if str_eq(self.items[i].as_str(), tag) {
                return Some(i);
            }
            i += 1;
        }
        None
    }

    /// Whether the tag is in the set.
    pub fn contains(&self, tag: &str) -> (r: bool)
        ensures
            r == self@.contains(tag@),
    {
        match self.position(tag) {
            Some(i) => {
                assert(texts(self.items@)[i as int] == tag@);
                true
            },
            None => false,
        }
    }

    /// Adds the tag. Returns whether it was new to the set.
    pub fn insert(&mut self, tag: String) -> (r: bool)
        ensures
            final(self)@ == old(self)@.insert(tag@),
            r == !old(self)@.contains(tag@),
            final(self).elements() == if r {
                old(self).elements().push(tag@)
            } else {
                old(self).elements()
            },
    {
        proof {
            use_type_invariant(&*self);
        }
        match self.position(tag.as_str()) {
            Some(i) => {
                assert(texts(self.items@)[i as int] == tag@);
                assert(self@ =~= self@.insert(tag@));
                false
            },
            None => {
                let ghost before = texts(self.items@);
                let mut items: Vec<String> = Vec::new();
                std::mem::swap(&mut self.items, &mut items);
                items.push(tag);
                proof {
                    assert(texts(items@) =~= before.push(tag@));
                    lemma_push_of_new_value(before, tag@);
                    before.lemma_push_to_set_commute(tag@);
                }
                std::mem::swap(&mut self.items, &mut items);
                true
            },
        }
    }

    /// Takes the tag out. Returns whether it was in the set.
    pub fn remove(&mut self, tag: &str) -> (r: bool)
        ensures
            final(self)@ == old(self)@.remove(tag@),
            r == old(self)@.contains(tag@),
            final(self).elements() == if r {
                old(self).elements().remove(old(self).elements().index_of(tag@))
            } else {
                old(self).elements()
            },
    {
        proof {
            use_type_invariant(&*self);
        }
        match self.position(tag) {
            Some(i) => {
                let ghost before = texts(self.items@);
                assert(before[i as int] == tag@);
                assert(before.index_of(tag@) == i) by {
                    let k = before.index_of(tag@);
                    assert(0 <= k < before.len() && before[k] == before[i as int]);
                }
                let mut items: Vec<String> = Vec::new();
                std::mem::swap(&mut self.items, &mut items);
                items.remove(i);
                proof {
                    let after = texts(items@);
                    assert(after =~= before.remove(i as int));
                    assert forall|t: Seq<char>| after.to_set().contains(t) == before.to_set().remove(
                        tag@,
                    ).contains(t) by {
                        if after.contains(t) {
                            let k = choose|k: int| 0 <= k < after.len() && after[k] == t;
                            if k < i {
                                assert(before[k] == t);
                            } else {
                                assert(before[k + 1] == t);
                            }
                        }
                        if before.contains(t) && t != tag@ {
                            let k = choose|k: int| 0 <= k < before.len() && before[k] == t;
                            if k < i {
                                assert(after[k] == t);
                            } else {
                                assert(after[k - 1] == t);
                            }
                        }
                    }
                    assert(after.to_set() =~= before.to_set().remove(tag@));
                }
                std::mem::swap(&mut self.items, &mut items);
                true
            },
            None => {
                assert(self@ =~= self@.remove(tag@));
                false
            },
        }
    }

    /// The tags as strings, each once, in the order of `elements`.
    pub fn to_vec(&self) -> (r: Vec<String>)
        ensures
            texts(r@) == self.elements(),
            texts(r@).no_duplicates(),
            texts(r@).to_set() == self@,
    {
        self.distinct();
        let mut out: Vec<String> = Vec::new();
        let mut i: usize = 0;
        while i < self.items.len()
            invariant
                i <= self.items@.len(),
                out@.len() == i,
                forall|k: int| 0 <= k < i ==> out@[k]@ == self.items@[k]@,
            decreases self.items@.len() - i,
        {
            out.push(self.items[i].clone());
            i += 1;
        }
        assert(texts(out@) =~= texts(self.items@));
        out
    }

    /// The set of the texts of the given strings. A text that occurs more
    /// than once is kept where it occurs first.
    pub fn from_vec(tags: Vec<String>) -> (r: TagSet)
        ensures
            r@ == texts(tags@).to_set(),
            r.elements() == first_occurrences(texts(tags@)),
    {
        let mut out = TagSet::new();
        let mut i: usize = 0;
        let ghost all = texts(tags@);
        assert(all.take(0) =~= Seq::empty());
        assert(all.take(0).to_set() =~= Set::empty());
        while i < tags.len()
            invariant
                i <= tags@.len(),
                all == texts(tags@),
                out.elements() == first_occurrences(all.take(i as int)),
                out@ == all.take(i as int).to_set(),
            decreases tags@.len() - i,
        {
            let ghost seen = all.take(i as int);
            out.distinct();
            out.insert(tags[i].clone());
            proof {
                assert(all.take(i + 1) =~= seen.push(tags@[i as int]@));
                assert(all.take(i + 1).drop_last() =~= seen);
                seen.lemma_push_to_set_commute(tags@[i as int]@);
            }
            i += 1;
        }
        assert(all.take(tags@.len() as int) =~= all);
        out
    }

    /// Adds every tag of the other set, in the order of its elements,
    /// after the tags that this set holds.
    pub fn extend(&mut self, other: &TagSet)
        ensures
            final(self)@ == old(self)@.union(other@),
            final(self).elements() == first_occurrences(old(self).elements() + other.elements()),
    {
        let mut i: usize = 0;
        let ghost mine = self.elements();
        let ghost theirs = texts(other.items@);
        proof {
            use_type_invariant(&*self);
            lemma_first_occurrences_of_distinct(mine);
            assert(mine + theirs.take(0) =~= mine);
            assert(self@ =~= old(self)@.union(theirs.take(0).to_set()));
        }
        while i < other.items.len()
            invariant
                i <= other.items@.len(),
                theirs == texts(other.items@),
                mine == old(self).elements(),
                self.elements() == first_occurrences(mine + theirs.take(i as int)),
                self@ == old(self)@.union(theirs.take(i as int).to_set()),
            decreases other.items@.len() - i,
        {
            let ghost seen = theirs.take(i as int);
            self.distinct();
            self.insert(other.items[i].clone());
            proof {
                let next = other.items@[i as int]@;
                assert(theirs.take(i + 1) =~= seen.push(next));
                assert((mine + theirs.take(i + 1)).drop_last() =~= mine + seen);
                seen.lemma_push_to_set_commute(next);
                assert(self@ =~= old(self)@.union(seen.push(next).to_set()));
            }
            i += 1;
        }
        assert(theirs.take(other.items@.len() as int) =~= theirs);
    }

    /// Whether every tag of this set is in the other one.
    fn is_subset_of(&self, other: &TagSet) -> (r: bool)
        ensures
            r == self@.subset_of(other@),
    {
        let mut i: usize = 0;
        while i < self.items.len()
            invariant
                i <= self.items@.len(),
                forall|k: int| 0 <= k < i ==> other@.contains(self.items@[k]@),
            decreases self.items@.len() - i,
        {
            if !other.contains(self.items[i].as_str()) {
                assert(texts(self.items@)[i as int] == self.items@[i as int]@);
                assert(self@.contains(self.items@[i as int]@));
                return false;
            }
            i += 1;
        }
        assert forall|t: Seq<char>| self@.contains(t) implies other@.contains(t) by {
            let k = choose|k: int| 0 <= k < texts(self.items@).len() && texts(self.items@)[k] == t;
            assert(self.items@[k]@ == t);
        }
        true
    }
}

impl Clone for TagSet {
    fn clone(&self) -> (r: TagSet)
        ensures
            r@ == self@,
            r.elements() == self.elements(),
    {
        proof {
            use_type_invariant(self);
        }
        let items = self.to_vec();
        TagSet { items }
    }
}

impl Default for TagSet {
    fn default() -> (r: TagSet)
        ensures
            r@ == Set::<Seq<char>>::empty(),
    {
        TagSet::new()
    }
}

impl PartialEq for TagSet {
    /// Two tag sets are equal when they hold the same tags, in whatever
    /// order.
    fn eq(&self, other: &TagSet) -> (r: bool) {
        self.distinct();
        other.distinct();
        if self.items.len() != other.items.len() {
            return false;
        }
        let r = self.is_subset_of(other);
        proof {
            if r {
                vstd::set_lib::lemma_subset_equality(self@, other@);
            }
        }
        r
    }
}

impl Eq for TagSet {

}

impl PartialEqSpecImpl for TagSet {
    open spec fn obeys_eq_spec() -> bool {
        true
    }

    open spec fn eq_spec(&self, other: &TagSet) -> bool {
        self@ == other@
    }
}

} // verus!
