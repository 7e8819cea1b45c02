//! The ordered sub-items of a task.
use vstd::prelude::*;
use crate::checkbox::{Checkbox, CheckboxView};

verus! {

/// Whether every checkbox of a sequence is ticked (true of an empty one).
pub open spec fn all_ticked(s: Seq<CheckboxView>) -> bool {
    forall|i: int| 0 <= i < s.len() ==> #[trigger] s[i].is_done
}

/// An empty checklist is all done; appending an unticked checkbox to any
/// checklist makes it not all done; appending a ticked one to an all-done
/// checklist keeps it all done.
pub proof fn lemma_all_done_after_push(s: Seq<CheckboxView>, c: CheckboxView)
    ensures
        all_ticked(Seq::<CheckboxView>::empty()),
        !c.is_done ==> !all_ticked(s.push(c)),
        c.is_done && all_ticked(s) ==> all_ticked(s.push(c)),
{
    assert(s.push(c)[s.len() as int] == c);
    if c.is_done && all_ticked(s) {
        assert forall|i: int| 0 <= i < s.push(c).len() implies #[trigger] s.push(c)[i].is_done by {
            if i < s.len() {
                assert(s.push(c)[i] == s[i]);
            }
        }
    }
}

/// An ordered collection of checkboxes, in insertion order, duplicates allowed.
#[derive(Debug)]
pub struct Checklist {
    checkboxes: Vec<Checkbox>,
}

impl View for Checklist {
    type V = Seq<CheckboxView>;

    closed spec fn view(&self) -> Seq<CheckboxView> {
        self.checkboxes@.map_values(|c: Checkbox| c@)
    }
}

impl Checklist {
    /// A checklist holding the given checkboxes, in the given order.
    pub fn with_checkboxes(checkboxes: Vec<Checkbox>) -> (r: Checklist)
        ensures
            r@ == checkboxes@.map_values(|c: Checkbox| c@),
    {
        Checklist { checkboxes }
    }

    /// Whether this checklist has no checkboxes.
    pub fn is_empty(&self) -> (r: bool)
        ensures
            r == (self@.len() == 0),
    {
        self.checkboxes.len() == 0
    }

    /// The number of checkboxes in this checklist.
    pub fn len(&self) -> (r: usize)
        ensures
            r == self@.len(),
    {
        self.checkboxes.len()
    }

    /// Whether every checkbox is ticked; true of an empty checklist.
    pub fn all_done(&self) -> (r: bool)
        ensures
            r == all_ticked(self@),
    {
        let mut i: usize = 0;
        while i < self.checkboxes.len()
            invariant
                i <= self@.len(),
                forall|j: int| 0 <= j < i ==> #[trigger] self@[j].is_done,
            decreases self@.len() - i,
        {
            if !self.checkboxes[i].is_done() {
                assert(!self@[i as int].is_done);
                return false;
            }
            i = i + 1;
        }
        true
    }

    /// The checkbox at `idx`, or `None` when `idx` is out of bounds.
    pub fn get(&self, idx: usize) -> (r: Option<&Checkbox>)
        ensures
            idx < self@.len() ==> (r matches Some(c) && c@ == self@[idx as int]),
            idx >= self@.len() ==> r is None,
    {
        if idx >= self.checkboxes.len() {
            None
        } else {
            Some(&self.checkboxes[idx])
        }
    }

    /// The checkbox at `idx`, to be changed in place, or `None` when `idx` is
    /// out of bounds.
    pub fn get_mut(&mut self, idx: usize) -> (r: Option<&mut Checkbox>)
        ensures
            idx >= old(self)@.len() ==> r is None && final(self)@ == old(self)@,
            idx < old(self)@.len() ==> r is Some && (*r->0)@ == old(self)@[idx as int]
                && final(self)@ == old(self)@.update(idx as int, (*final(r->0))@),
    {
        if idx >= self.checkboxes.len() {
            None
        } else {
            Some(&mut self.checkboxes[idx])
        }
    }

    /// Appends a checkbox at the end.
    pub fn push(&mut self, elem: Checkbox)
        ensures
            final(self)@ == old(self)@.push(elem@),
    {
        self.checkboxes.push(elem);
    }

    /// Removes the checkbox at `index` and returns it; the last checkbox takes
    /// its place, so the order of the others is not kept.
    pub fn remove(&mut self, index: usize) -> (r: Checkbox)
        requires
            index < old(self)@.len(),
        ensures
            r@ == old(self)@[index as int],
            final(self)@ == old(self)@.update(index as int, old(self)@.last()).drop_last(),
    {
        self.checkboxes.swap_remove(index)
    }

    /// The checkboxes, in order.
    pub fn as_slice(&self) -> (r: &[Checkbox])
        ensures
            r@.map_values(|c: Checkbox| c@) == self@,
    {
        self.checkboxes.as_slice()
    }

    /// The checkboxes, in order, handed over.
    pub fn into_checkboxes(self) -> (r: Vec<Checkbox>)
        ensures
            r@.map_values(|c: Checkbox| c@) == self@,
    {
        self.checkboxes
    }
}

impl Clone for Checklist {
    fn clone(&self) -> (r: Checklist)
        ensures
            r@ == self@,
    {
        let mut checkboxes: Vec<Checkbox> = Vec::new();
        let mut i: usize = 0;
        while i < self.checkboxes.len()
            invariant
                i <= self.checkboxes@.len(),
                checkboxes@.len() == i,
                forall|j: int| 0 <= j < i ==> (#[trigger] checkboxes@[j])@ == self@[j],
            decreases self.checkboxes@.len() - i,
        {
            let c = self.checkboxes[i].clone();
            assert(c@ == self@[i as int]);
            checkboxes.push(c);
            i = i + 1;
        }
        let r = Checklist { checkboxes };
        assert(r@ =~= self@);
        r
    }
}

impl PartialEq for Checklist {
    fn eq(&self, other: &Checklist) -> (r: bool)
        ensures
            r == (self@ == other@),
    {
        if self.checkboxes.len() != other.checkboxes.len() {
            return false;
        }
        let mut i: usize = 0;
        while i < self.checkboxes.len()
            invariant
                i <= self@.len(),
                self@.len() == other@.len(),
                forall|j: int| 0 <= j < i ==> self@[j] == other@[j],
            decreases self@.len() - i,
        {
            if self.checkboxes[i] != other.checkboxes[i] {
                assert(self@[i as int] != other@[i as int]);
                return false;
            }
            i = i + 1;
        }
        assert(self@ =~= other@);
        true
    }
}

impl vstd::std_specs::cmp::PartialEqSpecImpl for Checklist {
    open spec fn obeys_eq_spec() -> bool {
        true
    }

    open spec fn eq_spec(&self, other: &Checklist) -> bool {
        self@ == other@
    }
}

impl Eq for Checklist {}

} // verus!
