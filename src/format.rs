//! The canonical text form of checkboxes, checklists, tasks and task sets:
//! the text that the user edits and that the parser reads back.
use vstd::prelude::*;
use crate::checkbox::{Checkbox, CheckboxView};
use crate::checklist::Checklist;
use crate::date::digit_char;
use crate::priority::priority_text;
use crate::task::{Task, TaskSet, TaskView};

verus! {

/// `x` for a ticked mark, a space for an unticked one.
pub open spec fn mark_text(done: bool) -> Seq<char> {
    if done { seq!['x'] } else { seq![' '] }
}

/// `[x] description` or `[ ] description`.
pub open spec fn checkbox_text(c: CheckboxView) -> Seq<char> {
    seq!['['] + mark_text(c.is_done) + seq![']', ' '] + c.description
}

/// The indented line `    * [x] description` of a checkbox.
pub open spec fn checklist_line(c: CheckboxView) -> Seq<char> {
    seq![' ', ' ', ' ', ' ', '*', ' '] + checkbox_text(c) + seq!['\n']
}

/// One indented line per checkbox.
pub open spec fn checklist_text(s: Seq<CheckboxView>) -> Seq<char>
    decreases s.len(),
{
    if s.len() == 0 {
        Seq::empty()
    } else {
        checklist_text(s.drop_last()) + checklist_line(s.last())
    }
}

/// The header line `[ ] name [PRIORITY]` of a task.
pub open spec fn header_text(t: TaskView) -> Seq<char> {
    seq!['['] + mark_text(t.is_done) + seq![']', ' '] + t.name + seq![' ', '['] + priority_text(
        t.priority,
    ) + seq![']', '\n']
}

/// The header line followed by the checklist's lines.
pub open spec fn task_text(t: TaskView) -> Seq<char> {
    header_text(t) + checklist_text(t.checklist)
}

/// The decimal digits of a natural number, without leading zeros.
pub open spec fn nat_text(n: nat) -> Seq<char>
    decreases n,
{
    if n < 10 {
        seq![digit_char(n as int)]
    } else {
        nat_text(n / 10).push(digit_char((n % 10) as int))
    }
}

/// The block of the task numbered `n`: `{n}. {task text}` and an empty line.
pub open spec fn task_block(n: nat, t: TaskView) -> Seq<char> {
    nat_text(n) + seq!['.', ' '] + task_text(t) + seq!['\n']
}

/// The text of a task set: the block of each task, numbered from 1.
pub open spec fn task_set_text(ts: Seq<TaskView>) -> Seq<char>
    decreases ts.len(),
{
    if ts.len() == 0 {
        Seq::empty()
    } else {
        task_set_text(ts.drop_last()) + task_block(ts.len(), ts.last())
    }
}

fn digit_str(n: usize) -> (r: &'static str)
    requires
        n < 10,
    ensures
        r@ == seq![digit_char(n as int)],
{
    proof {
        reveal_strlit("0");
        reveal_strlit("1");
        reveal_strlit("2");
        reveal_strlit("3");
        reveal_strlit("4");
        reveal_strlit("5");
        reveal_strlit("6");
        reveal_strlit("7");
        reveal_strlit("8");
        reveal_strlit("9");
    }
    let r = if n == 0 {
        "0"
    } else if n == 1 {
        "1"
    } else if n == 2 {
        "2"
    } else if n == 3 {
        "3"
    } else if n == 4 {
        "4"
    } else if n == 5 {
        "5"
    } else if n == 6 {
        "6"
    } else if n == 7 {
        "7"
    } else if n == 8 {
        "8"
    } else {
        "9"
    };
    assert(r@ =~= seq![digit_char(n as int)]);
    r
}

/// Appends the decimal digits of `n`.
fn append_decimal(out: &mut String, n: usize)
    ensures
        final(out)@ == old(out)@ + nat_text(n as nat),
    decreases n,
{
    if n < 10 {
        out.append(digit_str(n));
    } else {
        append_decimal(out, n / 10);
        out.append(digit_str(n % 10));
        assert(final(out)@ =~= old(out)@ + nat_text(n as nat));
    }
}

fn append_mark(out: &mut String, done: bool)
    ensures
        final(out)@ == old(out)@ + seq!['['] + mark_text(done) + seq![']', ' '],
{
    proof {
        reveal_strlit("[x] ");
        reveal_strlit("[ ] ");
    }
    if done {
        out.append("[x] ");
    } else {
        out.append("[ ] ");
    }
    assert(final(out)@ =~= old(out)@ + seq!['['] + mark_text(done) + seq![']', ' ']);
}

fn append_checklist(out: &mut String, list: &Checklist)
    ensures
        final(out)@ == old(out)@ + checklist_text(list@),
{
    let boxes = list.as_slice();
    let ghost start = out@;
    let mut i: usize = 0;
    proof {
        assert(list@.subrange(0, 0) =~= Seq::<CheckboxView>::empty());
        assert(out@ =~= start + checklist_text(list@.subrange(0, 0)));
    }
    while i < boxes.len()
        invariant
            boxes@.map_values(|c: Checkbox| c@) == list@,
            i <= list@.len(),
            out@ == start + checklist_text(list@.subrange(0, i as int)),
        decreases list@.len() - i,
    {
        let ghost before = out@;
        proof {
            reveal_strlit("    * ");
            reveal_strlit("\n");
            assert("    * "@ =~= seq![' ', ' ', ' ', ' ', '*', ' ']);
            assert("\n"@ =~= seq!['\n']);
        }
        out.append("    * ");
        append_mark(out, boxes[i].is_done());
        out.append(boxes[i].description());
        out.append("\n");
        proof {
            let s = list@.subrange(0, i + 1);
            assert(s.drop_last() =~= list@.subrange(0, i as int));
            assert(boxes@[i as int]@ == list@[i as int]);
            assert(s.last() == list@[i as int]);
            assert(out@ =~= before + seq![' ', ' ', ' ', ' ', '*', ' '] + checkbox_text(s.last())
                + seq!['\n']);
        }
        i = i + 1;
    }
    assert(list@.subrange(0, list@.len() as int) =~= list@);
}

fn append_task(out: &mut String, t: &Task)
    ensures
        final(out)@ == old(out)@ + task_text(t@),
{
    let ghost start = out@;
    proof {
        reveal_strlit(" [");
        reveal_strlit("]\n");
    }
    append_mark(out, t.is_done);
    out.append(t.name.as_str());
    out.append(" [");
    out.append(t.priority.as_str());
    out.append("]\n");
    append_checklist(out, &t.checklist);
    assert(out@ =~= start + task_text(t@));
}

impl Checkbox {
    /// `[x] description` when ticked, `[ ] description` otherwise.
    pub fn to_text(&self) -> (r: String)
        ensures
            r@ == checkbox_text(self@),
    {
        let mut out = String::new();
        append_mark(&mut out, self.is_done());
        out.append(self.description());
        assert(out@ =~= checkbox_text(self@));
        out
    }
}

impl Checklist {
    /// One line `    * [x] description` per checkbox, in order.
    pub fn to_text(&self) -> (r: String)
        ensures
            r@ == checklist_text(self@),
    {
        let mut out = String::new();
        append_checklist(&mut out, self);
        assert(out@ =~= checklist_text(self@));
        out
    }
}

impl Task {
    /// The header line `[ ] name [PRIORITY]` and the checklist's lines.
    pub fn to_text(&self) -> (r: String)
        ensures
            r@ == task_text(self@),
    {
        let mut out = String::new();
        append_task(&mut out, self);
        assert(out@ =~= task_text(self@));
        out
    }
}

impl TaskSet {
    /// The canonical text of the task set: each task numbered from 1, its
    /// lines, and an empty line after it.
    pub fn to_text(&self) -> (r: String)
        ensures
            r@ == task_set_text(self@),
    {
        let mut out = String::new();
        let mut i: usize = 0;
        proof {
            assert(self@.subrange(0, 0) =~= Seq::<TaskView>::empty());
            assert(out@ =~= task_set_text(self@.subrange(0, 0)));
        }
        while i < self.0.len()
            invariant
                i <= self@.len(),
                out@ == task_set_text(self@.subrange(0, i as int)),
            decreases self@.len() - i,
        {
            let ghost before = out@;
            proof {
                reveal_strlit(". ");
                reveal_strlit("\n");
                assert(". "@ =~= seq!['.', ' ']);
                assert("\n"@ =~= seq!['\n']);
            }
            append_decimal(&mut out, i + 1);
            out.append(". ");
            append_task(&mut out, &self.0[i]);
            out.append("\n");
            proof {
                let s = self@.subrange(0, i + 1);
                assert(s.drop_last() =~= self@.subrange(0, i as int));
                assert(s.last() == self.0@[i as int]@);
                assert(s.len() == i + 1);
                assert(out@ =~= before + nat_text(s.len()) + seq!['.', ' '] + task_text(s.last())
                    + seq!['\n']);
            }
            i = i + 1;
        }
        assert(self@.subrange(0, self@.len() as int) =~= self@);
        out
    }
}

} // verus!
