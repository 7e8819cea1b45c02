//! A single item of a task's checklist.
use vstd::prelude::*;

verus! {

/// What a checkbox holds: its description and whether it is ticked.
pub ghost struct CheckboxView {
    pub description: Seq<char>,
    pub is_done: bool,
}

/// A checkbox that belongs to a checklist: a description that can be
/// ticked off and unticked.
#[derive(Debug)]
pub struct Checkbox {
    description: String,
    is_done: bool,
}

impl View for Checkbox {
    type V = CheckboxView;

    closed spec fn view(&self) -> CheckboxView {
        CheckboxView { description: self.description@, is_done: self.is_done }
    }
}

impl Checkbox {
    /// An unticked checkbox with the given description.
    pub fn with_description(name: String) -> (r: Checkbox)
        ensures
            r@ == (CheckboxView { description: name@, is_done: false }),
    {
        Checkbox { description: name, is_done: false }
    }

    /// The same checkbox, ticked when `is_done` holds and unticked otherwise.
    pub fn with_status(self, is_done: bool) -> (r: Checkbox)
        ensures
            r@ == (CheckboxView { description: self@.description, is_done }),
    {
        Checkbox { description: self.description, is_done }
    }

    /// The description of this checkbox.
    pub fn description(&self) -> (r: &str)
        ensures
            r@ == self@.description,
    {
        self.description.as_str()
    }

    /// Ticks an unticked checkbox and unticks a ticked one.
    pub fn toggle(&mut self)
        ensures
            final(self)@ == (CheckboxView {
                description: old(self)@.description,
                is_done: !old(self)@.is_done,
            }),
    {
        self.is_done = !self.is_done;
    }

    /// Whether this checkbox is ticked.
    pub fn is_done(&self) -> (r: bool)
        ensures
            r == self@.is_done,
    {
        self.is_done
    }
}

impl PartialEq for Checkbox {
    fn eq(&self, other: &Checkbox) -> (r: bool)
        ensures
            r == (self@ == other@),
    {
        self.is_done == other.is_done && self.description == other.description
    }
}

impl vstd::std_specs::cmp::PartialEqSpecImpl for Checkbox {
    open spec fn obeys_eq_spec() -> bool {
        true
    }

    open spec fn eq_spec(&self, other: &Checkbox) -> bool {
        self@ == other@
    }
}

impl Eq for Checkbox {}

impl Clone for Checkbox {
    fn clone(&self) -> (r: Checkbox)
        ensures
            r@ == self@,
    {
        Checkbox { description: self.description.clone(), is_done: self.is_done }
    }
}

} // verus!
