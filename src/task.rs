//! Tasks, their urgency order, and the task set of one day.
use vstd::prelude::*;
use core::cmp::Ordering;
use vstd::std_specs::cmp::PartialOrdSpec;
use crate::checkbox::CheckboxView;
use crate::checklist::Checklist;
use crate::date::Date;
use crate::priority::{cmp_int, rank, Priority};

verus! {

/// What a task holds.
pub ghost struct TaskView {
    pub idx: u32,
    pub name: Seq<char>,
    pub is_done: bool,
    pub creation_date: Date,
    pub due_date: Option<Date>,
    pub priority: Priority,
    pub checklist: Seq<CheckboxView>,
}

/// A to-do task.
#[derive(Debug)]
pub struct Task {
    /// The number written before the task in the text it was read from
    pub idx: u32,
    /// What is to be done
    pub name: String,
    /// Whether it has been done
    pub is_done: bool,
    /// The day the task was made
    pub creation_date: Date,
    /// The day by which it should be done, where there is one
    pub due_date: Option<Date>,
    /// How urgent it is
    pub priority: Priority,
    /// Its sub-items
    pub checklist: Checklist,
}

impl View for Task {
    type V = TaskView;

    open spec fn view(&self) -> TaskView {
        TaskView {
            idx: self.idx,
            name: self.name@,
            is_done: self.is_done,
            creation_date: self.creation_date,
            due_date: self.due_date,
            priority: self.priority,
            checklist: self.checklist@,
        }
    }
}

/// The urgency order of two tasks. Where either has no due date, or their
/// priorities differ, the priorities decide; otherwise the task due sooner
/// ranks higher.
pub open spec fn task_cmp(a: TaskView, b: TaskView) -> Ordering {
    if !(a.due_date is Some && b.due_date is Some) || a.priority != b.priority {
        cmp_int(rank(a.priority), rank(b.priority))
    } else {
        b.due_date->0.cmp_spec(&a.due_date->0)
    }
}

fn same_due_date(a: &Option<Date>, b: &Option<Date>) -> (r: bool)
    ensures
        r == (*a == *b),
{
    match (a, b) {
        (Some(x), Some(y)) => *x == *y,
        (None, None) => true,
        _ => false,
    }
}

impl Clone for Task {
    fn clone(&self) -> (r: Task)
        ensures
            r@ == self@,
    {
        Task {
            idx: self.idx,
            name: self.name.clone(),
            is_done: self.is_done,
            creation_date: self.creation_date,
            due_date: self.due_date,
            priority: self.priority,
            checklist: self.checklist.clone(),
        }
    }
}

impl PartialEq for Task {
    fn eq(&self, other: &Task) -> (r: bool)
        ensures
            r == (self@ == other@),
    {
        self.idx == other.idx && self.name == other.name && self.is_done == other.is_done
            && self.creation_date == other.creation_date && same_due_date(
            &self.due_date,
            &other.due_date,
        ) && self.priority == other.priority && self.checklist == other.checklist
    }
}

impl vstd::std_specs::cmp::PartialEqSpecImpl for Task {
    open spec fn obeys_eq_spec() -> bool {
        true
    }

    open spec fn eq_spec(&self, other: &Task) -> bool {
        self@ == other@
    }
}

impl Eq for Task {}

impl PartialOrd for Task {
    fn partial_cmp(&self, other: &Task) -> (r: Option<Ordering>)
        ensures
            r == Some(task_cmp(self@, other@)),
    {
        let both_have_due_dates = self.due_date.is_some() && other.due_date.is_some();
        if !both_have_due_dates || self.priority != other.priority {
            return self.priority.partial_cmp(&other.priority);
        }
        let self_due_date = self.due_date.unwrap();
        let other_due_date = other.due_date.unwrap();
        Some(other_due_date.compare(&self_due_date))
    }
}

impl vstd::std_specs::cmp::PartialOrdSpecImpl for Task {
    open spec fn obeys_partial_cmp_spec() -> bool {
        true
    }

    open spec fn partial_cmp_spec(&self, other: &Task) -> Option<Ordering> {
        Some(task_cmp(self@, other@))
    }
}

/// Two tasks of equal priority that are both due order by due date, the one
/// due sooner being greater; two tasks of different priority order as their
/// priorities do, whatever their due dates.
pub proof fn lemma_task_order(a: Task, b: Task)
    ensures
        a.priority == b.priority && a.due_date is Some && b.due_date is Some
            && a.due_date->0.cmp_spec(&b.due_date->0) == Ordering::Less ==> a.partial_cmp_spec(&b)
            == Some(Ordering::Greater) && b.partial_cmp_spec(&a) == Some(Ordering::Less),
        a.priority != b.priority ==> a.partial_cmp_spec(&b) == a.priority.partial_cmp_spec(
            &b.priority,
        ) && a.partial_cmp_spec(&b) != Some(Ordering::Equal),
{
}

/// The tasks of one day, in order; a task's 1-based position is its number.
#[derive(Debug)]
pub struct TaskSet(pub Vec<Task>);

impl View for TaskSet {
    type V = Seq<TaskView>;

    open spec fn view(&self) -> Seq<TaskView> {
        self.0@.map_values(|t: Task| t@)
    }
}

/// The 1-based position of the first task whose number is not its position.
pub open spec fn first_misnumbered(ts: Seq<TaskView>) -> Option<nat> {
    if exists|i: int| 0 <= i < ts.len() && ts[i].idx != i + 1 {
        let i = choose|i: int|
            0 <= i < ts.len() && ts[i].idx != i + 1 && forall|j: int|
                0 <= j < i ==> ts[j].idx == j + 1;
        Some((i + 1) as nat)
    } else {
        None
    }
}

impl TaskSet {
    /// The first position (counting from 1) whose task carries another
    /// number, if there is one.
    pub fn check_for_invalid_indices(&self) -> (r: Option<usize>)
        ensures
            r matches Some(k) ==> 1 <= k <= self@.len() && self@[k - 1].idx != k && forall|j: int|
                0 <= j < k - 1 ==> self@[j].idx == j + 1,
            r is None <==> forall|j: int| 0 <= j < self@.len() ==> self@[j].idx == j + 1,
    {
        let mut i: usize = 0;
        while i < self.0.len()
            invariant
                i <= self@.len(),
                forall|j: int| 0 <= j < i ==> self@[j].idx == j + 1,
            decreases self@.len() - i,
        {
            let expected = i + 1;
            if expected > u32::MAX as usize || self.0[i].idx as usize != expected {
                assert(self@[i as int].idx != i + 1);
                return Some(expected);
            }
            i = i + 1;
        }
        None
    }
}

impl Clone for TaskSet {
    fn clone(&self) -> (r: TaskSet)
        ensures
            r@ == self@,
    {
        let mut tasks: Vec<Task> = Vec::new();
        let mut i: usize = 0;
        while i < self.0.len()
            invariant
                i <= self.0@.len(),
                tasks@.len() == i,
                forall|j: int| 0 <= j < i ==> (#[trigger] tasks@[j])@ == self@[j],
            decreases self.0@.len() - i,
        {
            let t = self.0[i].clone();
            tasks.push(t);
            i = i + 1;
        }
        let r = TaskSet(tasks);
        assert(r@ =~= self@);
        r
    }
}

impl PartialEq for TaskSet {
    fn eq(&self, other: &TaskSet) -> (r: bool)
        ensures
            r == (self@ == other@),
    {
        if self.0.len() != other.0.len() {
            return false;
        }
        let mut i: usize = 0;
        while i < self.0.len()
            invariant
                i <= self@.len(),
                self@.len() == other@.len(),
                forall|j: int| 0 <= j < i ==> self@[j] == other@[j],
            decreases self@.len() - i,
        {
            if self.0[i] != other.0[i] {
                assert(self@[i as int] != other@[i as int]);
                return false;
            }
            i = i + 1;
        }
        assert(self@ =~= other@);
        true
    }
}

impl vstd::std_specs::cmp::PartialEqSpecImpl for TaskSet {
    open spec fn obeys_eq_spec() -> bool {
        true
    }

    open spec fn eq_spec(&self, other: &TaskSet) -> bool {
        self@ == other@
    }
}

} // verus!
