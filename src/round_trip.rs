//! Reading back the canonical text: the parser undoes the renderer.
use vstd::prelude::*;
use crate::checkbox::CheckboxView;
use crate::date::{digit_char, lemma_digit_char, Date};
use crate::format::{checklist_line, checklist_text, mark_text, nat_text, task_block, task_set_text};
use crate::parser::{
    checkbox_rule, checkboxes_rule, checkmark_rule, digits_end, digits_value, header_rule,
    index_rule, is_digit, parsed_tasks, priority_rule, task_rule, tasks_rule, HeaderView,
};
use crate::priority::{lemma_priority_text_round_trip, priority_text};
use crate::task::TaskView;
use crate::text::{find_char, is_space, skip_space, trim_back, trimmed};

verus! {

/// `b` stands in `s` from position `o` on.
pub open spec fn occurs_at(s: Seq<char>, o: int, b: Seq<char>) -> bool {
    0 <= o && o + b.len() <= s.len() && forall|k: int| 0 <= k < b.len() ==> s[o + k] == b[k]
}

/// Every character of `s[a..b]` is white space.
pub open spec fn all_space(s: Seq<char>, a: int, b: int) -> bool {
    forall|k: int| a <= k < b ==> is_space(s[k])
}

/// A text with no white space at either end.
pub open spec fn is_trimmed(t: Seq<char>) -> bool {
    t.len() == 0 || (!is_space(t[0]) && !is_space(t[t.len() - 1]))
}

/// A text in which `c` does not occur.
pub open spec fn lacks(t: Seq<char>, c: char) -> bool {
    forall|k: int| 0 <= k < t.len() ==> t[k] != c
}

/// A task whose text reads back as itself: its name has no white space at
/// either end and no `[`, and each checkbox description has no white space
/// at either end and no newline.
pub open spec fn renders_faithfully(t: TaskView) -> bool {
    &&& is_trimmed(t.name)
    &&& lacks(t.name, '[')
    &&& forall|j: int|
        0 <= j < t.checklist.len() ==> is_trimmed(#[trigger] t.checklist[j].description) && lacks(
            t.checklist[j].description,
            '\n',
        )
}

/// What the text of task `t`, numbered `n`, reads back as on `today`: the
/// same name, state, priority and checklist, the number `n`, created today
/// and due on no date.
pub open spec fn read_back(t: TaskView, n: int, today: Date) -> TaskView {
    TaskView {
        idx: n as u32,
        name: t.name,
        is_done: t.is_done,
        creation_date: today,
        due_date: None,
        priority: t.priority,
        checklist: t.checklist,
    }
}

proof fn lemma_skip_run(s: Seq<char>, p: int, q: int, end: int)
    requires
        0 <= p <= q <= end <= s.len(),
        all_space(s, p, q),
        q == end || !is_space(s[q]),
    ensures
        skip_space(s, p, end) == q,
    decreases q - p,
{
    if p < q {
        lemma_skip_run(s, p + 1, q, end);
    }
}

proof fn lemma_digits_run(s: Seq<char>, q: int, e: int)
    requires
        0 <= q <= e <= s.len(),
        forall|k: int| q <= k < e ==> is_digit(s[k]),
        e == s.len() || !is_digit(s[e]),
    ensures
        digits_end(s, q) == e,
    decreases e - q,
{
    if q < e {
        lemma_digits_run(s, q + 1, e);
    }
}

proof fn lemma_find_run(s: Seq<char>, p: int, e: int, c: char)
    requires
        0 <= p <= e <= s.len(),
        forall|k: int| p <= k < e ==> s[k] != c,
        e == s.len() || s[e] == c,
    ensures
        find_char(s, p, c) == e,
    decreases e - p,
{
    if p < e {
        lemma_find_run(s, p + 1, e, c);
    }
}

proof fn lemma_trim_back_run(s: Seq<char>, a: int, m: int, b: int)
    requires
        0 <= a <= m <= b <= s.len(),
        all_space(s, m, b),
        m == a || !is_space(s[m - 1]),
    ensures
        trim_back(s, a, b) == m,
    decreases b - m,
{
    if m < b {
        lemma_trim_back_run(s, a, m, b - 1);
    }
}

/// A trimmed text after one space and before white space is read back as
/// itself.
proof fn lemma_trimmed_padded(s: Seq<char>, a: int, t: Seq<char>, b: int)
    requires
        0 <= a,
        a + 1 + t.len() <= b <= s.len(),
        is_space(s[a]),
        occurs_at(s, a + 1, t),
        all_space(s, a + 1 + t.len(), b),
        is_trimmed(t),
    ensures
        trimmed(s, a, b) == t,
{
    if t.len() == 0 {
        lemma_skip_run(s, a, b, b);
        lemma_trim_back_run(s, b, b, b);
        assert(trimmed(s, a, b) =~= t);
    } else {
        assert(s[a + 1] == t[0]);
        lemma_skip_run(s, a, a + 1, b);
        assert(s[a + t.len()] == t[t.len() - 1]);
        lemma_trim_back_run(s, a + 1, a + 1 + t.len(), b);
        assert(trimmed(s, a, b) =~= t);
    }
}

proof fn lemma_occurs_split(s: Seq<char>, o: int, a: Seq<char>, b: Seq<char>)
    requires
        occurs_at(s, o, a + b),
    ensures
        occurs_at(s, o, a),
        occurs_at(s, o + a.len(), b),
{
    assert forall|k: int| 0 <= k < a.len() implies s[o + k] == a[k] by {
        assert((a + b)[k] == a[k]);
    }
    assert forall|k: int| 0 <= k < b.len() implies s[o + a.len() + k] == b[k] by {
        assert((a + b)[a.len() + k] == b[k]);
    }
}

proof fn lemma_nat_text(n: nat)
    ensures
        nat_text(n).len() >= 1,
        forall|k: int| 0 <= k < nat_text(n).len() ==> is_digit(#[trigger] nat_text(n)[k]),
        digits_value(nat_text(n)) == n,
    decreases n,
{
    if n < 10 {
        lemma_digit_char(n as int);
        assert(nat_text(n).drop_last() =~= Seq::<char>::empty());
        assert(nat_text(n).last() == digit_char(n as int));
        assert(digits_value(Seq::<char>::empty()) == 0);
        assert(digits_value(nat_text(n)) == digits_value(nat_text(n).drop_last()) * 10 + ((
        nat_text(n).last() as u32) - 48) as nat);
    } else {
        lemma_nat_text(n / 10);
        lemma_digit_char((n % 10) as int);
        assert(nat_text(n).drop_last() =~= nat_text(n / 10));
        assert(nat_text(n).last() == digit_char((n % 10) as int));
        assert((n / 10) * 10 + n % 10 == n);
        assert(digits_value(nat_text(n)) == digits_value(nat_text(n).drop_last()) * 10 + ((
        nat_text(n).last() as u32) - 48) as nat);
    }
}

/// A checkbox line, after white space, reads back as its checkbox; reading
/// stops at the newline that ends it.
proof fn lemma_read_checkbox(s: Seq<char>, p: int, o: int, c: CheckboxView)
    requires
        0 <= p <= o,
        all_space(s, p, o),
        occurs_at(s, o, checklist_line(c)),
        is_trimmed(c.description),
        lacks(c.description, '\n'),
    ensures
        checkbox_rule(s, p) == Some((c, o + 10 + c.description.len())),
{
    let line = checklist_line(c);
    let d = c.description;
    let n = d.len() as int;
    assert(line =~= seq![' ', ' ', ' ', ' ', '*', ' ', '['] + mark_text(c.is_done) + seq![']', ' ']
        + d + seq!['\n']);
    assert(line.len() == 11 + n);
    assert(s[o] == ' ' && s[o + 1] == ' ' && s[o + 2] == ' ' && s[o + 3] == ' ') by {
        assert(s[o] == line[0]);
        assert(s[o + 1] == line[1]);
        assert(s[o + 2] == line[2]);
        assert(s[o + 3] == line[3]);
    }
    assert(s[o + 4] == '*' && s[o + 5] == ' ' && s[o + 6] == '[') by {
        assert(s[o + 4] == line[4]);
        assert(s[o + 5] == line[5]);
        assert(s[o + 6] == line[6]);
    }
    assert(s[o + 7] == mark_text(c.is_done)[0] && s[o + 8] == ']' && s[o + 9] == ' ') by {
        assert(s[o + 7] == line[7]);
        assert(s[o + 8] == line[8]);
        assert(s[o + 9] == line[9]);
    }
    assert(s[o + 10 + n] == '\n') by {
        assert(s[o + 10 + n] == line[10 + n]);
    }
    assert(occurs_at(s, o + 10, d)) by {
        assert forall|k: int| 0 <= k < n implies s[o + 10 + k] == d[k] by {
            assert(s[o + 10 + k] == line[10 + k]);
        }
    }
    lemma_skip_run(s, p, o + 4, s.len() as int);
    lemma_skip_run(s, o + 5, o + 6, s.len() as int);
    assert(checkmark_rule(s, o + 5) == Some((c.is_done, o + 9)));
    assert forall|k: int| o + 9 <= k < o + 10 + n implies s[k] != '\n' by {
        if k > o + 9 {
            assert(s[k] == d[k - o - 10]);
        }
    }
    lemma_find_run(s, o + 9, o + 10 + n, '\n');
    lemma_trimmed_padded(s, o + 9, d, o + 10 + n);
}

proof fn lemma_occurs_prefix(s: Seq<char>, o: int, a: Seq<char>, k: int)
    requires
        occurs_at(s, o, a),
        0 <= k <= a.len(),
    ensures
        occurs_at(s, o, a.subrange(0, k)),
{
}

/// The text of the first `k` checkboxes begins the text of the checklist.
proof fn lemma_checklist_prefix(cl: Seq<CheckboxView>, k: int)
    requires
        0 <= k <= cl.len(),
    ensures
        checklist_text(cl.subrange(0, k)).len() <= checklist_text(cl).len(),
        checklist_text(cl).subrange(0, checklist_text(cl.subrange(0, k)).len() as int)
            == checklist_text(cl.subrange(0, k)),
    decreases cl.len(),
{
    if k == cl.len() {
        assert(cl.subrange(0, k) =~= cl);
        assert(checklist_text(cl).subrange(0, checklist_text(cl).len() as int) =~= checklist_text(
            cl,
        ));
    } else {
        let d = cl.drop_last();
        assert(cl.subrange(0, k) =~= d.subrange(0, k));
        lemma_checklist_prefix(d, k);
        let pre = checklist_text(cl.subrange(0, k));
        assert(checklist_text(cl) == checklist_text(d) + checklist_line(cl.last()));
        assert(checklist_text(cl).subrange(0, pre.len() as int) =~= checklist_text(d).subrange(
            0,
            pre.len() as int,
        ));
    }
}

/// Where the checklist stands, its line `j` stands after the lines before it.
proof fn lemma_checklist_line_at(s: Seq<char>, c0: int, cl: Seq<CheckboxView>, j: int)
    requires
        occurs_at(s, c0, checklist_text(cl)),
        0 <= j < cl.len(),
    ensures
        occurs_at(s, c0 + checklist_text(cl.subrange(0, j)).len(), checklist_line(cl[j])),
        checklist_text(cl.subrange(0, j + 1)).len() == checklist_text(cl.subrange(0, j)).len()
            + checklist_line(cl[j]).len(),
{
    let up = cl.subrange(0, j + 1);
    lemma_checklist_prefix(cl, j + 1);
    assert(up.drop_last() =~= cl.subrange(0, j));
    assert(up.last() == cl[j]);
    assert(checklist_text(up) == checklist_text(cl.subrange(0, j)) + checklist_line(cl[j]));
    lemma_occurs_prefix(s, c0, checklist_text(cl), checklist_text(up).len() as int);
    lemma_occurs_split(s, c0, checklist_text(cl.subrange(0, j)), checklist_line(cl[j]));
}

/// From line `j` of a checklist on, the checkboxes are read back one by one;
/// reading stops before the white space that ends the block.
proof fn lemma_read_checkboxes(s: Seq<char>, p: int, c0: int, cl: Seq<CheckboxView>, j: int)
    requires
        0 <= j <= cl.len(),
        occurs_at(s, c0, checklist_text(cl)),
        0 <= p <= c0 + checklist_text(cl.subrange(0, j)).len(),
        all_space(s, p, c0 + checklist_text(cl.subrange(0, j)).len()),
        forall|i: int|
            0 <= i < cl.len() ==> is_trimmed(#[trigger] cl[i].description) && lacks(
                cl[i].description,
                '\n',
            ),
        c0 + checklist_text(cl).len() < s.len(),
        s[c0 + checklist_text(cl).len()] == '\n',
        c0 + checklist_text(cl).len() + 1 == s.len() || (!is_space(
            s[c0 + checklist_text(cl).len() + 1],
        ) && s[c0 + checklist_text(cl).len() + 1] != '*'),
    ensures
        checkboxes_rule(s, p).0 == cl.subrange(j, cl.len() as int),
        p <= checkboxes_rule(s, p).1 <= c0 + checklist_text(cl).len() + 1,
        all_space(s, checkboxes_rule(s, p).1, c0 + checklist_text(cl).len() + 1),
    decreases cl.len() - j,
{
    let z = c0 + checklist_text(cl).len();
    if j == cl.len() {
        assert(cl.subrange(0, j) =~= cl);
        lemma_skip_run(s, p, z + 1, s.len() as int);
        assert(checkbox_rule(s, p) is None);
        assert(cl.subrange(j, cl.len() as int) =~= Seq::<CheckboxView>::empty());
    } else {
        let oj = c0 + checklist_text(cl.subrange(0, j)).len();
        lemma_checklist_line_at(s, c0, cl, j);
        lemma_checklist_prefix(cl, j + 1);
        let c = cl[j];
        lemma_read_checkbox(s, p, oj, c);
        let e1 = oj + 10 + c.description.len();
        let line = checklist_line(c);
        assert(line =~= seq![' ', ' ', ' ', ' ', '*', ' ', '['] + mark_text(c.is_done) + seq![
            ']',
            ' ',
        ] + c.description + seq!['\n']);
        assert(s[e1] == line[10 + c.description.len() as int]);
        assert(s[e1] == '\n');
        lemma_read_checkboxes(s, e1, c0, cl, j + 1);
        assert(cl.subrange(j, cl.len() as int) =~= seq![c] + cl.subrange(j + 1, cl.len() as int));
    }
}

/// Where each part of a task's block stands.
proof fn lemma_block_layout(s: Seq<char>, o: int, t: TaskView, n: nat)
    requires
        occurs_at(s, o, task_block(n, t)),
    ensures
        ({
            let r = o + nat_text(n).len();
            let nl = t.name.len() as int;
            let pl = priority_text(t.priority).len() as int;
            let ct = checklist_text(t.checklist);
            &&& occurs_at(s, o, nat_text(n))
            &&& s[r] == '.' && s[r + 1] == ' ' && s[r + 2] == '['
            &&& s[r + 3] == mark_text(t.is_done)[0] && s[r + 4] == ']' && s[r + 5] == ' '
            &&& occurs_at(s, r + 6, t.name)
            &&& s[r + 6 + nl] == ' ' && s[r + 7 + nl] == '['
            &&& occurs_at(s, r + 8 + nl, priority_text(t.priority))
            &&& s[r + 8 + nl + pl] == ']' && s[r + 9 + nl + pl] == '\n'
            &&& occurs_at(s, r + 10 + nl + pl, ct)
            &&& o + task_block(n, t).len() == r + 11 + nl + pl + ct.len()
            &&& s[r + 10 + nl + pl + ct.len()] == '\n'
        }),
{
    let num = nat_text(n);
    let l = num.len() as int;
    let name = t.name;
    let nl = name.len() as int;
    let pri = priority_text(t.priority);
    let pl = pri.len() as int;
    let ct = checklist_text(t.checklist);
    let rest = seq!['.', ' ', '['] + mark_text(t.is_done) + seq![']', ' '] + name + seq![' ', '[']
        + pri + seq![']', '\n'] + ct + seq!['\n'];
    assert(task_block(n, t) =~= num + rest);
    lemma_occurs_split(s, o, num, rest);
    let r = o + l;
    assert(mark_text(t.is_done).len() == 1);
    assert(rest.len() == 11 + nl + pl + ct.len());
    assert(s[r] == '.' && s[r + 1] == ' ' && s[r + 2] == '[') by {
        assert(s[r] == rest[0]);
        assert(s[r + 1] == rest[1]);
        assert(s[r + 2] == rest[2]);
    }
    assert(s[r + 3] == mark_text(t.is_done)[0] && s[r + 4] == ']' && s[r + 5] == ' ') by {
        assert(s[r + 3] == rest[3]);
        assert(s[r + 4] == rest[4]);
        assert(s[r + 5] == rest[5]);
    }
    assert(occurs_at(s, r + 6, name)) by {
        assert forall|k: int| 0 <= k < nl implies s[r + 6 + k] == name[k] by {
            assert(s[r + 6 + k] == rest[6 + k]);
        }
    }
    assert(s[r + 6 + nl] == ' ' && s[r + 7 + nl] == '[') by {
        assert(s[r + 6 + nl] == rest[6 + nl]);
        assert(s[r + 7 + nl] == rest[7 + nl]);
    }
    assert(occurs_at(s, r + 8 + nl, pri)) by {
        assert forall|k: int| 0 <= k < pl implies s[r + 8 + nl + k] == pri[k] by {
            assert(s[r + 8 + nl + k] == rest[8 + nl + k]);
        }
    }
    assert(s[r + 8 + nl + pl] == ']' && s[r + 9 + nl + pl] == '\n') by {
        assert(s[r + 8 + nl + pl] == rest[8 + nl + pl]);
        assert(s[r + 9 + nl + pl] == rest[9 + nl + pl]);
    }
    let c0 = r + 10 + nl + pl;
    assert(occurs_at(s, c0, ct)) by {
        assert forall|k: int| 0 <= k < ct.len() implies s[c0 + k] == ct[k] by {
            assert(s[c0 + k] == rest[10 + nl + pl + k]);
        }
    }
    assert(s[c0 + ct.len()] == rest[rest.len() - 1]);
}

/// A task's header line, after white space, reads back as its number,
/// state, name and priority.
#[verifier::rlimit(50)]
proof fn lemma_read_header(s: Seq<char>, p: int, o: int, t: TaskView, n: nat)
    requires
        1 <= n <= u32::MAX,
        0 <= p <= o,
        all_space(s, p, o),
        occurs_at(s, o, task_block(n, t)),
        renders_faithfully(t),
    ensures
        header_rule(s, p) == Some(
            (
                HeaderView {
                    idx: n as u32,
                    is_checked: t.is_done,
                    name: t.name,
                    priority: t.priority,
                },
                o + nat_text(n).len() + 9 + t.name.len() + priority_text(t.priority).len(),
            ),
        ),
{
    let num = nat_text(n);
    let name = t.name;
    let nl = name.len() as int;
    let pri = priority_text(t.priority);
    let pl = pri.len() as int;
    lemma_block_layout(s, o, t, n);
    lemma_nat_text(n);
    let r = o + num.len();
    // the number
    assert(s[o] == num[0]);
    lemma_skip_run(s, p, o, s.len() as int);
    assert forall|k: int| o <= k < r implies is_digit(s[k]) by {
        assert(s[k] == num[k - o]);
    }
    lemma_digits_run(s, o, r);
    assert(s.subrange(o, r) =~= num);
    assert(index_rule(s, p) == Some((n as u32, r + 1)));
    // the checkmark
    lemma_skip_run(s, r + 1, r + 2, s.len() as int);
    assert(checkmark_rule(s, r + 1) == Some((t.is_done, r + 5)));
    // the name, up to the first bracket
    assert forall|k: int| r + 5 <= k < r + 7 + nl implies s[k] != '[' by {
        if r + 6 <= k < r + 6 + nl {
            assert(s[k] == name[k - r - 6]);
        }
    }
    lemma_find_run(s, r + 5, r + 7 + nl, '[');
    lemma_trimmed_padded(s, r + 5, name, r + 7 + nl);
    // the priority
    let b = r + 7 + nl;
    assert(pri == seq!['H', 'I', 'G', 'H'] || pri == seq!['M', 'E', 'D', 'I', 'U', 'M'] || pri
        == seq!['L', 'O', 'W']);
    assert forall|k: int| b + 1 <= k < b + 1 + pl implies s[k] != ']' by {
        assert(s[k] == pri[k - b - 1]);
    }
    lemma_find_run(s, b + 1, b + 1 + pl, ']');
    assert(s.subrange(b + 1, b + 1 + pl) =~= pri);
    lemma_priority_text_round_trip(t.priority);
    assert(priority_rule(s, b) == Some((t.priority, b + 2 + pl)));
}

/// A task's block, after white space, reads back as the task; reading stops
/// before the white space that ends the block.
proof fn lemma_read_task(s: Seq<char>, p: int, o: int, t: TaskView, n: nat, today: Date)
    requires
        1 <= n <= u32::MAX,
        0 <= p <= o,
        all_space(s, p, o),
        occurs_at(s, o, task_block(n, t)),
        renders_faithfully(t),
        o + task_block(n, t).len() == s.len() || (!is_space(s[o + task_block(n, t).len()])
            && s[o + task_block(n, t).len()] != '*'),
    ensures
        task_rule(s, p, today) matches Some((tv, e)) && tv == read_back(t, n as int, today) && p
            < e <= o + task_block(n, t).len() && all_space(s, e, o + task_block(n, t).len()),
{
    lemma_block_layout(s, o, t, n);
    lemma_read_header(s, p, o, t, n);
    let cl = t.checklist;
    let ct = checklist_text(cl);
    let c0 = o + nat_text(n).len() + 10 + t.name.len() + priority_text(t.priority).len();
    let after_priority = c0 - 1;
    assert(cl.subrange(0, 0) =~= Seq::<CheckboxView>::empty());
    lemma_read_checkboxes(s, after_priority, c0, cl, 0);
    assert(cl.subrange(0, cl.len() as int) =~= cl);
}

/// The text of the first `k` tasks begins the text of the task set.
proof fn lemma_task_set_prefix(ts: Seq<TaskView>, k: int)
    requires
        0 <= k <= ts.len(),
    ensures
        task_set_text(ts.subrange(0, k)).len() <= task_set_text(ts).len(),
        task_set_text(ts).subrange(0, task_set_text(ts.subrange(0, k)).len() as int)
            == task_set_text(ts.subrange(0, k)),
    decreases ts.len(),
{
    if k == ts.len() {
        assert(ts.subrange(0, k) =~= ts);
        assert(task_set_text(ts).subrange(0, task_set_text(ts).len() as int) =~= task_set_text(
            ts,
        ));
    } else {
        let d = ts.drop_last();
        assert(ts.subrange(0, k) =~= d.subrange(0, k));
        lemma_task_set_prefix(d, k);
        let pre = task_set_text(ts.subrange(0, k));
        assert(task_set_text(ts) == task_set_text(d) + task_block(ts.len(), ts.last()));
        assert(task_set_text(ts).subrange(0, pre.len() as int) =~= task_set_text(d).subrange(
            0,
            pre.len() as int,
        ));
    }
}

/// In the text of a task set, the block of task `i` stands after the blocks
/// before it.
proof fn lemma_block_at(ts: Seq<TaskView>, i: int)
    requires
        0 <= i < ts.len(),
    ensures
        occurs_at(
            task_set_text(ts),
            task_set_text(ts.subrange(0, i)).len() as int,
            task_block((i + 1) as nat, ts[i]),
        ),
        task_set_text(ts.subrange(0, i + 1)).len() == task_set_text(ts.subrange(0, i)).len()
            + task_block((i + 1) as nat, ts[i]).len(),
{
    let s = task_set_text(ts);
    let up = ts.subrange(0, i + 1);
    lemma_task_set_prefix(ts, i + 1);
    assert(up.drop_last() =~= ts.subrange(0, i));
    assert(up.last() == ts[i]);
    assert(task_set_text(up) == task_set_text(ts.subrange(0, i)) + task_block(
        (i + 1) as nat,
        ts[i],
    ));
    assert(occurs_at(s, 0, s));
    lemma_occurs_prefix(s, 0, s, task_set_text(up).len() as int);
    lemma_occurs_split(s, 0, task_set_text(ts.subrange(0, i)), task_block((i + 1) as nat, ts[i]));
}

/// What follows the block of task `i` is the end of the text or the number
/// of the next task.
proof fn lemma_block_end(ts: Seq<TaskView>, i: int)
    requires
        0 <= i < ts.len(),
    ensures
        task_set_text(ts.subrange(0, i + 1)).len() <= task_set_text(ts).len(),
        task_set_text(ts.subrange(0, i + 1)).len() == task_set_text(ts).len() || is_digit(
            task_set_text(ts)[task_set_text(ts.subrange(0, i + 1)).len() as int],
        ),
{
    let s = task_set_text(ts);
    lemma_task_set_prefix(ts, i + 1);
    let z = task_set_text(ts.subrange(0, i + 1)).len() as int;
    if i + 1 < ts.len() {
        lemma_block_at(ts, i + 1);
        lemma_nat_text((i + 2) as nat);
        let nb = task_block((i + 2) as nat, ts[i + 1]);
        assert(nb[0] == nat_text((i + 2) as nat)[0]);
        assert(s[z] == nb[0]);
    } else {
        assert(ts.subrange(0, i + 1) =~= ts);
    }
}

#[verifier::rlimit(50)]
proof fn lemma_read_tasks(ts: Seq<TaskView>, i: int, p: int, today: Date)
    requires
        ts.len() <= u32::MAX,
        forall|k: int| 0 <= k < ts.len() ==> renders_faithfully(#[trigger] ts[k]),
        0 <= i <= ts.len(),
        0 <= p <= task_set_text(ts.subrange(0, i)).len(),
        all_space(task_set_text(ts), p, task_set_text(ts.subrange(0, i)).len() as int),
    ensures
        tasks_rule(task_set_text(ts), p, today).0 == Seq::new(
            (ts.len() - i) as nat,
            |k: int| read_back(ts[i + k], i + k + 1, today),
        ),
    decreases ts.len() - i,
{
    let s = task_set_text(ts);
    if i == ts.len() {
        assert(ts.subrange(0, i) =~= ts);
        lemma_skip_run(s, p, s.len() as int, s.len() as int);
        assert(digits_end(s, s.len() as int) == s.len());
        assert(index_rule(s, p) is None);
        assert(task_rule(s, p, today) is None);
        assert(tasks_rule(s, p, today).0 =~= Seq::new(
            (ts.len() - i) as nat,
            |k: int| read_back(ts[i + k], i + k + 1, today),
        ));
    } else {
        let o = task_set_text(ts.subrange(0, i)).len() as int;
        lemma_block_at(ts, i);
        lemma_task_set_prefix(ts, i + 1);
        lemma_block_end(ts, i);
        lemma_read_task(s, p, o, ts[i], (i + 1) as nat, today);
        let e = match task_rule(s, p, today) {
            Some((_, e)) => e,
            None => p,
        };
        lemma_read_tasks(ts, i + 1, e, today);
        assert(tasks_rule(s, p, today).0 =~= Seq::new(
            (ts.len() - i) as nat,
            |k: int| read_back(ts[i + k], i + k + 1, today),
        ));
    }
}

/// Reading back the text of a task set whose tasks render faithfully gives
/// the same tasks, with the same names, states, priorities and checklists,
/// numbered from 1, created on the day of reading and due on no date.
pub proof fn lemma_render_parse_round_trip(ts: Seq<TaskView>, today: Date)
    requires
        ts.len() <= u32::MAX,
        forall|k: int| 0 <= k < ts.len() ==> renders_faithfully(#[trigger] ts[k]),
    ensures
        parsed_tasks(task_set_text(ts), today) == Seq::new(
            ts.len(),
            |k: int| read_back(ts[k], k + 1, today),
        ),
{
    assert(ts.subrange(0, 0) =~= Seq::<TaskView>::empty());
    lemma_read_tasks(ts, 0, 0, today);
    assert(Seq::new((ts.len() - 0) as nat, |k: int| read_back(ts[0 + k], 0 + k + 1, today))
        =~= Seq::new(ts.len(), |k: int| read_back(ts[k], k + 1, today)));
}

} // verus!
