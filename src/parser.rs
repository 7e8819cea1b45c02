//! The lenient parser of the editable task-list text.
//!
//! Each grammar rule reads from a position of the text and gives the value
//! it read and the position after it. A task set is read task by task until a
//! task cannot be read; what is left is dropped.
use vstd::prelude::*;
use crate::checkbox::{Checkbox, CheckboxView};
use crate::checklist::Checklist;
use crate::date::{today, Date};
use crate::error::Error;
use crate::priority::{priority_of_text, Priority};
use crate::task::{Task, TaskSet, TaskView};
use crate::text::{
    chars_of, find_char, find_char_exec, lemma_find_char_bounds, skip_space, skip_space_exec,
    trim_back_exec, trimmed,
};

verus! {

/// What a task's header line holds.
pub ghost struct HeaderView {
    pub idx: u32,
    pub is_checked: bool,
    pub name: Seq<char>,
    pub priority: Priority,
}

pub open spec fn is_digit(c: char) -> bool {
    '0' <= c && c <= '9'
}

/// The value of a run of decimal digits.
pub open spec fn digits_value(t: Seq<char>) -> nat
    decreases t.len(),
{
    if t.len() == 0 {
        0
    } else {
        digits_value(t.drop_last()) * 10 + ((t.last() as u32) - 48) as nat
    }
}

/// The end of the run of digits that starts at `q`.
pub open spec fn digits_end(s: Seq<char>, q: int) -> int
    decreases s.len() - q,
{
    if 0 <= q < s.len() && is_digit(s[q]) {
        digits_end(s, q + 1)
    } else {
        q
    }
}

/// `index := ws* digit+ "."`, whose value fits in 32 bits.
pub open spec fn index_rule(s: Seq<char>, p: int) -> Option<(u32, int)> {
    let q = skip_space(s, p, s.len() as int);
    let e = digits_end(s, q);
    if q < e && e < s.len() && s[e] == '.' && digits_value(s.subrange(q, e)) <= u32::MAX {
        Some((digits_value(s.subrange(q, e)) as u32, e + 1))
    } else {
        None
    }
}

/// `checkmark := ws* "[" ("x" | "X" | " ") "]"`: ticked unless a space.
pub open spec fn checkmark_rule(s: Seq<char>, p: int) -> Option<(bool, int)> {
    let q = skip_space(s, p, s.len() as int);
    if 0 <= q && q + 2 < s.len() && s[q] == '[' && (s[q + 1] == 'x' || s[q + 1] == 'X' || s[q
        + 1] == ' ') && s[q + 2] == ']' {
        Some((s[q + 1] != ' ', q + 3))
    } else {
        None
    }
}

/// `"[" priority "]"`, the priority's name in any ASCII case.
pub open spec fn priority_rule(s: Seq<char>, b: int) -> Option<(Priority, int)> {
    if 0 <= b < s.len() && s[b] == '[' {
        let c = find_char(s, b + 1, ']');
        if c < s.len() && priority_of_text(s.subrange(b + 1, c)) is Some {
            Some((priority_of_text(s.subrange(b + 1, c))->0, c + 1))
        } else {
            None
        }
    } else {
        None
    }
}

/// `header := index checkmark name "[" priority "]"`, where the name is
/// everything up to the first `[`, trimmed.
pub open spec fn header_rule(s: Seq<char>, p: int) -> Option<(HeaderView, int)> {
    match index_rule(s, p) {
        Some((idx, after_index)) => match checkmark_rule(s, after_index) {
            Some((is_checked, after_mark)) => {
                let b = find_char(s, after_mark, '[');
                match priority_rule(s, b) {
                    Some((priority, after_priority)) => Some(
                        (HeaderView { idx, is_checked, name: trimmed(s, after_mark, b), priority }, after_priority),
                    ),
                    None => None,
                }
            },
            None => None,
        },
        None => None,
    }
}

/// `checkbox := ws* "*" checkmark description`, where the description is
/// everything up to the end of the line, trimmed; the newline is left.
pub open spec fn checkbox_rule(s: Seq<char>, p: int) -> Option<(CheckboxView, int)> {
    let q = skip_space(s, p, s.len() as int);
    if 0 <= q < s.len() && s[q] == '*' {
        match checkmark_rule(s, q + 1) {
            Some((is_done, after_mark)) => {
                let e = find_char(s, after_mark, '\n');
                Some((CheckboxView { description: trimmed(s, after_mark, e), is_done }, e))
            },
            None => None,
        }
    } else {
        None
    }
}

/// As many checkboxes as can be read from `p` on, and the position after them.
pub open spec fn checkboxes_rule(s: Seq<char>, p: int) -> (Seq<CheckboxView>, int)
    decreases s.len() - p,
{
    match checkbox_rule(s, p) {
        Some((c, q)) => if p < q <= s.len() {
            let (rest, e) = checkboxes_rule(s, q);
            (seq![c] + rest, e)
        } else {
            (Seq::empty(), p)
        },
        None => (Seq::empty(), p),
    }
}

/// `task := header checkbox*`, created on `today` and due on no date.
pub open spec fn task_rule(s: Seq<char>, p: int, today: Date) -> Option<(TaskView, int)> {
    match header_rule(s, p) {
        Some((h, after_priority)) => {
            let (boxes, e) = checkboxes_rule(s, after_priority);
            Some(
                (
                    TaskView {
                        idx: h.idx,
                        name: h.name,
                        is_done: h.is_checked,
                        creation_date: today,
                        due_date: None,
                        priority: h.priority,
                        checklist: boxes,
                    },
                    e,
                ),
            )
        },
        None => None,
    }
}

/// As many tasks as can be read from `p` on, and the position where reading
/// stopped.
pub open spec fn tasks_rule(s: Seq<char>, p: int, today: Date) -> (Seq<TaskView>, int)
    decreases s.len() - p,
{
    match task_rule(s, p, today) {
        Some((t, q)) => if p < q <= s.len() {
            let (rest, e) = tasks_rule(s, q, today);
            (seq![t] + rest, e)
        } else {
            (Seq::empty(), p)
        },
        None => (Seq::empty(), p),
    }
}

/// The tasks that the text holds, up to the first point where no task can
/// be read.
pub open spec fn parsed_tasks(s: Seq<char>, today: Date) -> Seq<TaskView> {
    tasks_rule(s, 0, today).0
}

/// A grammar rule could not be read at the start of the text.
#[derive(Debug, Clone, Copy, PartialEq, Eq, Structural)]
pub struct ParseFailure;

/// A task's header line as it was read: the name borrows from the text.
#[derive(Debug, PartialEq, Eq)]
pub struct TaskHeader<'a> {
    pub idx: u32,
    pub is_checked: bool,
    pub name: &'a str,
    pub priority: Priority,
}

impl<'a> TaskHeader<'a> {
    /// The task of this header with the given checkboxes, created on
    /// `creation_date` and due on no date.
    pub fn with_checkboxes(self, checkboxes: Vec<Checkbox>, creation_date: Date) -> (r: Task)
        ensures
            r@ == (TaskView {
                idx: self.idx,
                name: self.name@,
                is_done: self.is_checked,
                creation_date,
                due_date: None,
                priority: self.priority,
                checklist: checkboxes@.map_values(|c: Checkbox| c@),
            }),
    {
        Task {
            idx: self.idx,
            name: self.name.to_owned(),
            is_done: self.is_checked,
            creation_date,
            due_date: None,
            priority: self.priority,
            checklist: Checklist::with_checkboxes(checkboxes),
        }
    }
}

proof fn lemma_digits_end_bounds(s: Seq<char>, q: int)
    requires
        0 <= q <= s.len(),
    ensures
        q <= digits_end(s, q) <= s.len(),
        forall|i: int| q <= i < digits_end(s, q) ==> is_digit(s[i]),
        digits_end(s, q) < s.len() ==> !is_digit(s[digits_end(s, q)]),
    decreases s.len() - q,
{
    if q < s.len() && is_digit(s[q]) {
        lemma_digits_end_bounds(s, q + 1);
    }
}

proof fn lemma_digits_value_grows(s: Seq<char>, q: int, e: int, f: int)
    requires
        0 <= q <= e <= f <= s.len(),
        forall|i: int| q <= i < f ==> is_digit(s[i]),
    ensures
        digits_value(s.subrange(q, e)) <= digits_value(s.subrange(q, f)),
    decreases f - e,
{
    if e < f {
        lemma_digits_value_grows(s, q, e, f - 1);
        assert(s.subrange(q, f).drop_last() =~= s.subrange(q, f - 1));
    }
}

fn index_at(s: &Vec<char>, p: usize) -> (r: Option<(u32, usize)>)
    requires
        p <= s@.len(),
    ensures
        r matches Some((v, q)) ==> index_rule(s@, p as int) == Some((v, q as int)) && p < q
            <= s@.len(),
        r is None ==> index_rule(s@, p as int) is None,
{
    let q = skip_space_exec(s, p, s.len());
    let mut e = q;
    let mut v: u64 = 0;
    proof {
        lemma_digits_end_bounds(s@, q as int);
        assert(s@.subrange(q as int, q as int) =~= Seq::<char>::empty());
    }
    while e < s.len() && '0' <= s[e] && s[e] <= '9'
        invariant
            q == skip_space(s@, p as int, s@.len() as int),
            q <= e <= s@.len(),
            q <= digits_end(s@, q as int) <= s@.len(),
            forall|i: int| q <= i < digits_end(s@, q as int) ==> is_digit(s@[i]),
            digits_end(s@, q as int) < s@.len() ==> !is_digit(s@[digits_end(s@, q as int)]),
            digits_end(s@, e as int) == digits_end(s@, q as int),
            v == digits_value(s@.subrange(q as int, e as int)),
            v <= u32::MAX,
        decreases s@.len() - e,
    {
        proof {
            lemma_digits_end_bounds(s@, e + 1);
        }
        let d = (s[e] as u32 - 48) as u64;
        v = v * 10 + d;
        proof {
            assert(s@.subrange(q as int, e + 1).drop_last() =~= s@.subrange(q as int, e as int));
            assert(digits_end(s@, e as int) == digits_end(s@, e + 1));
        }
        e = e + 1;
        if v > u32::MAX as u64 {
            proof {
                assert(v == digits_value(s@.subrange(q as int, e as int)));
                lemma_digits_value_grows(s@, q as int, e as int, digits_end(s@, q as int));
                let dq = digits_end(s@, q as int);
                assert(digits_value(s@.subrange(q as int, dq)) > u32::MAX);
                assert(skip_space(s@, p as int, s@.len() as int) == q);
            }
            return None;
        }
    }
    if q < e && e < s.len() && s[e] == '.' {
        Some((v as u32, e + 1))
    } else {
        None
    }
}

fn checkmark_at(s: &Vec<char>, p: usize) -> (r: Option<(bool, usize)>)
    requires
        p <= s@.len(),
    ensures
        r matches Some((v, q)) ==> checkmark_rule(s@, p as int) == Some((v, q as int)) && p < q
            <= s@.len(),
        r is None ==> checkmark_rule(s@, p as int) is None,
{
    let q = skip_space_exec(s, p, s.len());
    if q < s.len() && s.len() - q > 2 && s[q] == '[' && (s[q + 1] == 'x' || s[q + 1] == 'X'
        || s[q + 1] == ' ') && s[q + 2] == ']' {
        Some((s[q + 1] != ' ', q + 3))
    } else {
        None
    }
}

fn priority_at(input: &str, s: &Vec<char>, b: usize) -> (r: Option<(Priority, usize)>)
    requires
        s@ == input@,
        b <= s@.len(),
    ensures
        r matches Some((v, q)) ==> priority_rule(s@, b as int) == Some((v, q as int)) && b < q
            <= s@.len(),
        r is None ==> priority_rule(s@, b as int) is None,
{
    if b < s.len() && s[b] == '[' {
        let c = find_char_exec(s, b + 1, ']');
        if c < s.len() {
            let word = input.substring_char(b + 1, c);
            match Priority::from_str(word) {
                Some(pr) => Some((pr, c + 1)),
                None => None,
            }
        } else {
            None
        }
    } else {
        None
    }
}

/// The text `s[from..to]` without leading and trailing white space.
fn trimmed_at<'a>(input: &'a str, s: &Vec<char>, from: usize, to: usize) -> (r: &'a str)
    requires
        s@ == input@,
        from <= to <= s@.len(),
    ensures
        r@ == trimmed(s@, from as int, to as int),
{
    let a = skip_space_exec(s, from, to);
    let b = trim_back_exec(s, a, to);
    input.substring_char(a, b)
}

fn header_at<'a>(input: &'a str, s: &Vec<char>, p: usize) -> (r: Option<(TaskHeader<'a>, usize)>)
    requires
        s@ == input@,
        p <= s@.len(),
    ensures
        r matches Some((h, q)) ==> header_rule(s@, p as int) == Some(
            (HeaderView { idx: h.idx, is_checked: h.is_checked, name: h.name@, priority: h.priority }, q as int),
        ) && p < q <= s@.len(),
        r is None ==> header_rule(s@, p as int) is None,
{
    let (idx, after_index) = match index_at(s, p) {
        Some(x) => x,
        None => return None,
    };
    let (is_checked, after_mark) = match checkmark_at(s, after_index) {
        Some(x) => x,
        None => return None,
    };
    let b = find_char_exec(s, after_mark, '[');
    let (priority, after_priority) = match priority_at(input, s, b) {
        Some(x) => x,
        None => return None,
    };
    let name = trimmed_at(input, s, after_mark, b);
    Some((TaskHeader { idx, is_checked, name, priority }, after_priority))
}

fn checkbox_at(input: &str, s: &Vec<char>, p: usize) -> (r: Option<(Checkbox, usize)>)
    requires
        s@ == input@,
        p <= s@.len(),
    ensures
        r matches Some((c, q)) ==> checkbox_rule(s@, p as int) == Some((c@, q as int)) && p < q
            <= s@.len(),
        r is None ==> checkbox_rule(s@, p as int) is None,
{
    let q = skip_space_exec(s, p, s.len());
    if q < s.len() && s[q] == '*' {
        match checkmark_at(s, q + 1) {
            Some((is_done, after_mark)) => {
                let e = find_char_exec(s, after_mark, '\n');
                proof {
                    lemma_find_char_bounds(s@, after_mark as int, '\n');
                }
                let description = trimmed_at(input, s, after_mark, e);
                let c = Checkbox::with_description(description.to_owned()).with_status(is_done);
                Some((c, e))
            },
            None => None,
        }
    } else {
        None
    }
}

fn checkboxes_at(input: &str, s: &Vec<char>, p: usize) -> (r: (Vec<Checkbox>, usize))
    requires
        s@ == input@,
        p <= s@.len(),
    ensures
        checkboxes_rule(s@, p as int) == (r.0@.map_values(|c: Checkbox| c@), r.1 as int),
        p <= r.1 <= s@.len(),
{
    let mut boxes: Vec<Checkbox> = Vec::new();
    let mut pos = p;
    loop
        invariant
            s@ == input@,
            p <= pos <= s@.len(),
            checkboxes_rule(s@, p as int) == (
                boxes@.map_values(|c: Checkbox| c@) + checkboxes_rule(s@, pos as int).0,
                checkboxes_rule(s@, pos as int).1,
            ),
        decreases s@.len() - pos,
    {
        match checkbox_at(input, s, pos) {
            Some((c, q)) => {
                let ghost before = boxes@.map_values(|c: Checkbox| c@);
                let ghost cv = c@;
                boxes.push(c);
                proof {
                    assert(boxes@.map_values(|c: Checkbox| c@) =~= before.push(cv));
                    assert(before + checkboxes_rule(s@, pos as int).0 =~= before.push(cv)
                        + checkboxes_rule(s@, q as int).0);
                }
                pos = q;
            },
            None => {
                proof {
                    assert(boxes@.map_values(|c: Checkbox| c@) + Seq::<CheckboxView>::empty()
                        =~= boxes@.map_values(|c: Checkbox| c@));
                }
                return (boxes, pos);
            },
        }
    }
}

fn task_at(input: &str, s: &Vec<char>, p: usize, today: Date) -> (r: Option<(Task, usize)>)
    requires
        s@ == input@,
        p <= s@.len(),
    ensures
        r matches Some((t, q)) ==> task_rule(s@, p as int, today) == Some((t@, q as int)) && p
            < q <= s@.len(),
        r is None ==> task_rule(s@, p as int, today) is None,
{
    match header_at(input, s, p) {
        Some((h, after_priority)) => {
            let (boxes, e) = checkboxes_at(input, s, after_priority);
            Some((h.with_checkboxes(boxes, today), e))
        },
        None => None,
    }
}

fn tasks_at(input: &str, s: &Vec<char>, today: Date) -> (r: Vec<Task>)
    requires
        s@ == input@,
    ensures
        r@.map_values(|t: Task| t@) == parsed_tasks(s@, today),
{
    let mut tasks: Vec<Task> = Vec::new();
    let mut pos: usize = 0;
    loop
        invariant
            s@ == input@,
            pos <= s@.len(),
            tasks_rule(s@, 0, today).0 == tasks@.map_values(|t: Task| t@) + tasks_rule(
                s@,
                pos as int,
                today,
            ).0,
        decreases s@.len() - pos,
    {
        match task_at(input, s, pos, today) {
            Some((t, q)) => {
                let ghost before = tasks@.map_values(|t: Task| t@);
                let ghost tv = t@;
                tasks.push(t);
                proof {
                    assert(tasks@.map_values(|t: Task| t@) =~= before.push(tv));
                    assert(before + tasks_rule(s@, pos as int, today).0 =~= before.push(tv)
                        + tasks_rule(s@, q as int, today).0);
                }
                pos = q;
            },
            None => {
                proof {
                    assert(tasks@.map_values(|t: Task| t@) + Seq::<TaskView>::empty()
                        =~= tasks@.map_values(|t: Task| t@));
                }
                return tasks;
            },
        }
    }
}

/// Reads the number tag `N.` at the start of the text.
pub fn parse_index(input: &str) -> (r: Result<(&str, u32), ParseFailure>)
    ensures
        r matches Ok((rest, v)) ==> index_rule(input@, 0) matches Some((w, q)) && w == v
            && rest@ == input@.subrange(q, input@.len() as int),
        r is Err <==> index_rule(input@, 0) is None,
{
    let s = chars_of(input);
    match index_at(&s, 0) {
        Some((v, q)) => Ok((input.substring_char(q, s.len()), v)),
        None => Err(ParseFailure),
    }
}

/// Reads a checkmark `[x]`, `[X]` or `[ ]` at the start of the text.
pub fn parse_checkmark(input: &str) -> (r: Result<(&str, bool), ParseFailure>)
    ensures
        r matches Ok((rest, v)) ==> checkmark_rule(input@, 0) matches Some((w, q)) && w == v
            && rest@ == input@.subrange(q, input@.len() as int),
        r is Err <==> checkmark_rule(input@, 0) is None,
{
    let s = chars_of(input);
    match checkmark_at(&s, 0) {
        Some((v, q)) => Ok((input.substring_char(q, s.len()), v)),
        None => Err(ParseFailure),
    }
}

/// Reads a priority `[HIGH]`, `[MEDIUM]` or `[LOW]` (in any ASCII case) at
/// the start of the text.
pub fn parse_priority(input: &str) -> (r: Result<(&str, Priority), ParseFailure>)
    ensures
        r matches Ok((rest, v)) ==> priority_rule(input@, 0) matches Some((w, q)) && w == v
            && rest@ == input@.subrange(q, input@.len() as int),
        r is Err <==> priority_rule(input@, 0) is None,
{
    let s = chars_of(input);
    match priority_at(input, &s, 0) {
        Some((v, q)) => Ok((input.substring_char(q, s.len()), v)),
        None => Err(ParseFailure),
    }
}

/// Reads a task's header line at the start of the text.
pub fn parse_task_header(input: &str) -> (r: Result<(&str, TaskHeader<'_>), ParseFailure>)
    ensures
        r matches Ok((rest, h)) ==> header_rule(input@, 0) matches Some((w, q)) && w == (
        HeaderView { idx: h.idx, is_checked: h.is_checked, name: h.name@, priority: h.priority })
            && rest@ == input@.subrange(q, input@.len() as int),
        r is Err <==> header_rule(input@, 0) is None,
{
    let s = chars_of(input);
    match header_at(input, &s, 0) {
        Some((h, q)) => Ok((input.substring_char(q, s.len()), h)),
        None => Err(ParseFailure),
    }
}

/// Reads a checkbox line `* [x] description` at the start of the text; the
/// newline that ends it is left.
pub fn parse_checkbox(input: &str) -> (r: Result<(&str, Checkbox), ParseFailure>)
    ensures
        r matches Ok((rest, c)) ==> checkbox_rule(input@, 0) matches Some((w, q)) && w == c@
            && rest@ == input@.subrange(q, input@.len() as int),
        r is Err <==> checkbox_rule(input@, 0) is None,
{
    let s = chars_of(input);
    match checkbox_at(input, &s, 0) {
        Some((c, q)) => Ok((input.substring_char(q, s.len()), c)),
        None => Err(ParseFailure),
    }
}

/// Reads one task, header and checkboxes, at the start of the text; it is
/// created today.
pub fn parse_task(input: &str) -> (r: Result<(&str, Task), ParseFailure>)
    ensures
        r matches Ok((rest, t)) ==> t@.creation_date.wf() && (task_rule(
            input@,
            0,
            t@.creation_date,
        ) matches Some((w, q)) && w == t@ && rest@ == input@.subrange(q, input@.len() as int)),
        r is Err <==> header_rule(input@, 0) is None,
{
    let s = chars_of(input);
    let day = today();
    match task_at(input, &s, 0, day) {
        Some((t, q)) => Ok((input.substring_char(q, s.len()), t)),
        None => Err(ParseFailure),
    }
}

/// The parser of the editable task-list text.
pub struct Parser;

impl Parser {
    /// Reads the tasks of a text, all created on `today`, up to the first
    /// point where no task can be read; the rest of the text is dropped.
    pub fn parse_dated(input: &str, today: Date) -> (r: TaskSet)
        ensures
            r@ == parsed_tasks(input@, today),
    {
        let s = chars_of(input);
        TaskSet(tasks_at(input, &s, today))
    }

    /// Reads the tasks of a text, all created today, up to the first point
    /// where no task can be read; the rest of the text is dropped. It never
    /// fails.
    pub fn parse(input: &str) -> (r: Result<TaskSet, Error>)
        ensures
            r is Ok,
            r matches Ok(ts) ==> exists|d: Date| d.wf() && ts@ == parsed_tasks(input@, d),
    {
        let day = today();
        Ok(Parser::parse_dated(input, day))
    }
}

} // verus!
