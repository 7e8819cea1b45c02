//! The bookkeeping of which day's task set was recorded last, and the
//! decisions of the daily rollover.
//!
//! The bookkeeping log is a sequence of fixed-width records, one per day on
//! which a task set was saved, each the date `YYYY-MM-DD` and a newline. The
//! library decides what to read, append and save; the caller does the I/O.
use vstd::prelude::*;
use crate::checkbox::Checkbox;
use crate::checklist::Checklist;
use crate::date::{
    date_from_text, date_named_by, date_text, date_to_text, digit_char, lemma_digit_char,
    padded_digits, text_names_date, Date,
};
use crate::error::Error;
use crate::priority::Priority;
use crate::task::{Task, TaskView};
use crate::text::chars_of;

verus! {

/// The length in bytes of one record of the bookkeeping log.
pub const RECORD_LEN: usize = 11;

/// Whether `rec` is the record of day `d` in the bookkeeping log:
/// `YYYY-MM-DD` and a newline.
pub open spec fn is_record_of(rec: Seq<u8>, d: Date) -> bool {
    &&& rec.len() == RECORD_LEN
    &&& rec[10] == 10u8
    &&& stamp_text(rec) == date_text(d)
}

/// The last record of a log.
pub open spec fn last_record(log: Seq<u8>) -> Seq<u8> {
    log.subrange(log.len() - RECORD_LEN, log.len() as int)
}

/// A record whose first ten bytes are ASCII and whose last byte is a newline.
pub open spec fn is_date_line(rec: Seq<u8>) -> bool {
    &&& rec.len() == RECORD_LEN
    &&& rec[10] == 10u8
    &&& forall|i: int| 0 <= i < 10 ==> rec[i] < 128u8
}

/// The text of a record's date stamp, its first ten bytes read as characters.
pub open spec fn stamp_text(rec: Seq<u8>) -> Seq<char> {
    rec.subrange(0, 10).map_values(|b: u8| b as char)
}

/// Keeps the date of the most recent task set that the bookkeeping log records.
#[derive(Debug, Clone, Copy, PartialEq, Eq, Structural)]
pub struct Bookkeeper {
    pub last_entry: Date,
}

/// What the daily run does before the user edits today's task set.
#[derive(Debug, Clone, Copy, PartialEq, Eq, Structural)]
pub enum Rollover {
    /// Today's task set is already saved: nothing to do
    Keep,
    /// Nothing was ever recorded: save a sample task as today's task set
    SeedSample,
    /// Save the task set of the last recorded day as today's
    CarryForward,
}

proof fn lemma_padded_digits_ascii(n: nat, width: nat)
    ensures
        padded_digits(n, width).len() == width,
        forall|i: int| 0 <= i < width ==> '0' <= #[trigger] padded_digits(n, width)[i] <= '9',
    decreases width,
{
    if width > 0 {
        lemma_padded_digits_ascii(n / 10, (width - 1) as nat);
        lemma_digit_char((n % 10) as int);
    }
}

proof fn lemma_padded_digits_injective(n: nat, m: nat, width: nat)
    requires
        padded_digits(n, width) == padded_digits(m, width),
        n < pow10(width),
        m < pow10(width),
    ensures
        n == m,
    decreases width,
{
    if width == 0 {
    } else {
        let w = (width - 1) as nat;
        lemma_padded_digits_ascii(n / 10, w);
        lemma_padded_digits_ascii(m / 10, w);
        let pn = padded_digits(n / 10, w);
        let pm = padded_digits(m / 10, w);
        assert(padded_digits(n, width) == pn.push(digit_char((n % 10) as int)));
        assert(padded_digits(m, width) == pm.push(digit_char((m % 10) as int)));
        assert(pn =~= padded_digits(n, width).drop_last());
        assert(pm =~= padded_digits(m, width).drop_last());
        assert(padded_digits(n, width)[w as int] == digit_char((n % 10) as int));
        assert(padded_digits(m, width)[w as int] == digit_char((m % 10) as int));
        lemma_digit_char((n % 10) as int);
        lemma_digit_char((m % 10) as int);
        assert(n % 10 == m % 10);
        assert(n / 10 < pow10(w)) by (nonlinear_arith)
            requires
                n < pow10(width),
                pow10(width) == 10 * pow10(w),
        ;
        assert(m / 10 < pow10(w)) by (nonlinear_arith)
            requires
                m < pow10(width),
                pow10(width) == 10 * pow10(w),
        ;
        lemma_padded_digits_injective(n / 10, m / 10, w);
    }
}

/// Ten to the given power.
pub open spec fn pow10(k: nat) -> nat
    decreases k,
{
    if k == 0 {
        1
    } else {
        10 * pow10((k - 1) as nat)
    }
}

proof fn lemma_date_text_shape(d: Date)
    requires
        d.wf(),
        d.has_short_year(),
    ensures
        date_text(d).len() == 10,
        forall|i: int| 0 <= i < 10 ==> is_stamp_char(#[trigger] date_text(d)[i]),
        date_text(d).subrange(0, 4) == padded_digits(d.year as nat, 4),
        date_text(d).subrange(5, 7) == padded_digits(d.month as nat, 2),
        date_text(d).subrange(8, 10) == padded_digits(d.day as nat, 2),
{
    lemma_padded_digits_ascii(d.year as nat, 4);
    lemma_padded_digits_ascii(d.month as nat, 2);
    lemma_padded_digits_ascii(d.day as nat, 2);
    let t = date_text(d);
    assert(t.subrange(0, 4) =~= padded_digits(d.year as nat, 4));
    assert(t.subrange(5, 7) =~= padded_digits(d.month as nat, 2));
    assert(t.subrange(8, 10) =~= padded_digits(d.day as nat, 2));
    assert forall|i: int| 0 <= i < 10 implies is_stamp_char(#[trigger] t[i]) by {
        if i < 4 {
            assert(t[i] == padded_digits(d.year as nat, 4)[i]);
        } else if i == 4 || i == 7 {
        } else if i < 7 {
            assert(t[i] == padded_digits(d.month as nat, 2)[i - 5]);
        } else {
            assert(t[i] == padded_digits(d.day as nat, 2)[i - 8]);
        }
    }
}

/// Two valid dates with four-digit years and the same text are the same date.
proof fn lemma_date_text_injective(d: Date, e: Date)
    requires
        d.wf(),
        d.has_short_year(),
        e.wf(),
        e.has_short_year(),
        date_text(d) == date_text(e),
    ensures
        d == e,
{
    lemma_date_text_shape(d);
    lemma_date_text_shape(e);
    reveal_with_fuel(pow10, 5);
    lemma_padded_digits_injective(d.year as nat, e.year as nat, 4);
    lemma_padded_digits_injective(d.month as nat, e.month as nat, 2);
    lemma_padded_digits_injective(d.day as nat, e.day as nat, 2);
}

/// A character of a date stamp: a decimal digit or a dash.
pub open spec fn is_stamp_char(c: char) -> bool {
    ('0' <= c && c <= '9') || c == '-'
}

/// A character of a file name of a day's task set.
pub open spec fn is_name_char(c: char) -> bool {
    is_stamp_char(c) || c == '.' || c == 'b' || c == 'i' || c == 'n'
}

/// The ASCII byte of a character of a date stamp or file name.
fn stamp_byte(c: char) -> (b: u8)
    requires
        is_name_char(c),
    ensures
        b as char == c,
        b < 128,
{
    if c == '-' {
        45u8
    } else if c == '.' {
        46u8
    } else if c == 'b' {
        98u8
    } else if c == 'i' {
        105u8
    } else if c == 'n' {
        110u8
    } else if c == '0' {
        48u8
    } else if c == '1' {
        49u8
    } else if c == '2' {
        50u8
    } else if c == '3' {
        51u8
    } else if c == '4' {
        52u8
    } else if c == '5' {
        53u8
    } else if c == '6' {
        54u8
    } else if c == '7' {
        55u8
    } else if c == '8' {
        56u8
    } else {
        57u8
    }
}

/// A record of a day is a date line, and its stamp reads back as that day.
proof fn lemma_record_names_date(rec: Seq<u8>, d: Date)
    requires
        d.wf(),
        d.has_short_year(),
        is_record_of(rec, d),
    ensures
        is_date_line(rec),
        text_names_date(stamp_text(rec)),
        date_named_by(stamp_text(rec)) == d,
{
    lemma_date_text_shape(d);
    let t = date_text(d);
    assert forall|i: int| 0 <= i < 10 implies rec[i] < 128u8 by {
        assert(stamp_text(rec)[i] == rec[i] as char);
        assert(is_stamp_char(t[i]));
    }
    assert(text_names_date(t));
    let e = date_named_by(t);
    lemma_date_text_injective(d, e);
}

/// The record of a day, `YYYY-MM-DD` and a newline; `DateOutOfRange` for a
/// day whose year has more than four digits.
pub fn log_record(d: Date) -> (r: Result<Vec<u8>, Error>)
    requires
        d.wf(),
    ensures
        d.has_short_year() ==> (r matches Ok(rec) && is_record_of(rec@, d)),
        !d.has_short_year() ==> (r matches Err(e) && e is DateOutOfRange),
{
    let text = match date_to_text(d) {
        Some(t) => t,
        None => return Err(Error::DateOutOfRange),
    };
    proof {
        lemma_date_text_shape(d);
    }
    let chars = chars_of(text.as_str());
    let mut rec: Vec<u8> = Vec::new();
    let mut i: usize = 0;
    while i < chars.len()
        invariant
            chars@ == date_text(d),
            chars@.len() == 10,
            forall|j: int| 0 <= j < 10 ==> is_stamp_char(#[trigger] chars@[j]),
            i <= 10,
            rec@.len() == i,
            forall|j: int| 0 <= j < i ==> (#[trigger] rec@[j]) as char == chars@[j],
        decreases 10 - i,
    {
        let b = stamp_byte(chars[i]);
        rec.push(b);
        i = i + 1;
    }
    rec.push(10u8);
    assert(stamp_text(rec@) =~= chars@);
    Ok(rec)
}

/// The name of the file that holds the task set of a day: `YYYY-MM-DD.bin`.
pub fn snapshot_name(d: Date) -> (r: Result<String, Error>)
    requires
        d.wf(),
    ensures
        d.has_short_year() ==> (r matches Ok(s) && s@ == date_text(d) + seq!['.', 'b', 'i', 'n']),
        !d.has_short_year() ==> (r matches Err(e) && e is DateOutOfRange),
{
    match date_to_text(d) {
        Some(t) => {
            let mut name = t;
            proof {
                reveal_strlit(".bin");
                assert(".bin"@ =~= seq!['.', 'b', 'i', 'n']);
            }
            name.append(".bin");
            Ok(name)
        },
        None => Err(Error::DateOutOfRange),
    }
}

impl Bookkeeper {
    /// Reads the bookkeeping log: an empty log means a fresh install, whose
    /// last entry is today; a log whose length is not a whole number of
    /// records is corrupt; otherwise the last entry is the date of the last
    /// record.
    pub fn init(log: &[u8], today: Date) -> (r: Result<Bookkeeper, Error>)
        ensures
            log@.len() == 0 ==> r == Ok::<Bookkeeper, Error>(Bookkeeper { last_entry: today }),
            log@.len() > 0 && log@.len() % 11 != 0 ==> (r matches Err(e)
                && e is InvalidBookkeepingFile),
            log@.len() > 0 && log@.len() % 11 == 0 && !is_date_line(last_record(log@)) ==> (r matches Err(e)
                && e is MalformedLogRecord),
            log@.len() > 0 && log@.len() % 11 == 0 && is_date_line(last_record(log@)) ==> (r matches Ok(b)
                ==> b.last_entry.wf()) && (r matches Err(e) ==> e is Chrono),
            forall|d: Date|
                d.wf() && d.has_short_year() && log@.len() > 0 && log@.len() % 11 == 0
                    && #[trigger] is_record_of(last_record(log@), d) ==> r == Ok::<
                    Bookkeeper,
                    Error,
                >(Bookkeeper { last_entry: d }),
    {
        let n = log.len();
        if n == 0 {
            return Ok(Bookkeeper { last_entry: today });
        }
        if n % RECORD_LEN != 0 {
            return Err(Error::InvalidBookkeepingFile);
        }
        let start = n - RECORD_LEN;
        let ghost rec = last_record(log@);
        if log[start + 10] != 10u8 {
            assert(!is_date_line(rec));
            return Err(Error::MalformedLogRecord);
        }
        let mut stamp = String::new();
        let mut i: usize = 0;
        while i < 10
            invariant
                n == log@.len(),
                n > 0,
                n % 11 == 0,
                start == n - RECORD_LEN,
                rec[10] == 10u8,
                rec == last_record(log@),
                rec.len() == RECORD_LEN,
                i <= 10,
                forall|j: int| 0 <= j < i ==> rec[j] < 128u8,
                stamp@ == rec.subrange(0, i as int).map_values(|b: u8| b as char),
            decreases 10 - i,
        {
            let b = log[start + i];
            assert(rec[i as int] == b);
            if b >= 128u8 {
                proof {
                    assert(!is_date_line(rec));
                    assert forall|d: Date|
                        d.wf() && d.has_short_year() && #[trigger] is_record_of(last_record(log@), d)
                            implies false by {
                        lemma_record_names_date(rec, d);
                    }
                }
                return Err(Error::MalformedLogRecord);
            }
            push_char(&mut stamp, b as char);
            proof {
                assert(rec.subrange(0, i + 1).map_values(|b: u8| b as char) =~= rec.subrange(
                    0,
                    i as int,
                ).map_values(|b: u8| b as char).push(b as char));
            }
            i = i + 1;
        }
        assert(is_date_line(rec));
        proof {
            assert(stamp@ =~= stamp_text(rec));
            assert forall|d: Date|
                d.wf() && d.has_short_year() && #[trigger] is_record_of(last_record(log@), d)
                    implies text_names_date(stamp@) && date_named_by(stamp@) == d by {
                lemma_record_names_date(rec, d);
            }
        }
        match date_from_text(stamp.as_str()) {
            Ok(d) => Ok(Bookkeeper { last_entry: d }),
            Err(e) => Err(Error::Chrono(e)),
        }
    }

    /// Records today as the last entry. When the last entry was another day,
    /// this gives the record to append to the bookkeeping log; on the same
    /// day it gives none, so the log never holds a day twice in a row.
    pub fn append_to_today(&mut self, today: Date) -> (r: Result<Option<Vec<u8>>, Error>)
        requires
            today.wf(),
        ensures
            old(self).last_entry == today ==> (r matches Ok(None) && *final(self) == *old(self)),
            old(self).last_entry != today && today.has_short_year() ==> (r matches Ok(Some(rec))
                && is_record_of(rec@, today) && final(self).last_entry == today),
            old(self).last_entry != today && !today.has_short_year() ==> (r matches Err(e)
                && e is DateOutOfRange && *final(self) == *old(self)),
    {
        if self.last_entry == today {
            return Ok(None);
        }
        let rec = match log_record(today) {
            Ok(rec) => rec,
            Err(e) => return Err(e),
        };
        self.last_entry = today;
        Ok(Some(rec))
    }

    /// What the daily run does, given whether today's task set is saved:
    /// nothing when it is; otherwise a sample task on a fresh install (the
    /// last entry is today) and the last entry's task set on a new day.
    pub fn rollover(&self, today_is_saved: bool, today: Date) -> (r: Rollover)
        ensures
            today_is_saved ==> r == Rollover::Keep,
            !today_is_saved && self.last_entry == today ==> r == Rollover::SeedSample,
            !today_is_saved && self.last_entry != today ==> r == Rollover::CarryForward,
    {
        if today_is_saved {
            Rollover::Keep
        } else if self.last_entry == today {
            Rollover::SeedSample
        } else {
            Rollover::CarryForward
        }
    }
}

/// Relies on `String::push`: appends one character.
#[verifier::external_body]
fn push_char(s: &mut String, c: char)
    ensures
        final(s)@ == old(s)@.push(c),
{
    s.push(c)
}

/// The task that a fresh install starts with.
pub fn sample_task(today: Date) -> (r: Task)
    ensures
        r@.idx == 1,
        r@.name == seq!['F', 'i', 'l', 'l', ' ', 'o', 'u', 't', ' ', 'm', 'y', ' ', 't', 'a', 's', 'k', 's'],
        !r@.is_done,
        r@.creation_date == today,
        r@.due_date is None,
        r@.priority == Priority::High,
        r@.checklist.len() == 1,
        r@.checklist[0].description == seq!['F', 'i', 'g', 'u', 'r', 'e', ' ', 'o', 'u', 't', ' ', 'h', 'o', 'w', ' ', 't', 'o', ' ', 'u', 's', 'e', ' ', 'd', 'o', 'd', 'o'],
        !r@.checklist[0].is_done,
{
    proof {
        reveal_strlit("Fill out my tasks");
        reveal_strlit("Figure out how to use dodo");
    }
    let item = Checkbox::with_description(String::from_str("Figure out how to use dodo"));
    let mut boxes: Vec<Checkbox> = Vec::new();
    boxes.push(item);
    let t = Task {
        idx: 1,
        name: String::from_str("Fill out my tasks"),
        is_done: false,
        creation_date: today,
        due_date: None,
        priority: Priority::High,
        checklist: Checklist::with_checkboxes(boxes),
    };
    assert(t@.name =~= seq!['F', 'i', 'l', 'l', ' ', 'o', 'u', 't', ' ', 'm', 'y', ' ', 't', 'a', 's', 'k', 's']);
    assert(t@.checklist[0].description =~= seq!['F', 'i', 'g', 'u', 'r', 'e', ' ', 'o', 'u', 't', ' ', 'h', 'o', 'w', ' ', 't', 'o', ' ', 'u', 's', 'e', ' ', 'd', 'o', 'd', 'o']);
    t
}

/// A buffer that holds the name of a day's task-set file, `YYYY-MM-DD.bin`.
pub struct DateBuffer {
    pub inner: [u8; 14],
}

impl DateBuffer {
    /// An empty buffer.
    pub fn new() -> (r: DateBuffer)
        ensures
            forall|i: int| 0 <= i < 14 ==> r.inner@[i] == 0u8,
    {
        DateBuffer { inner: [0u8; 14] }
    }

    /// Writes the file name of a day's task set into the buffer and returns
    /// it; `DateOutOfRange`, with the buffer unchanged, for a day whose year
    /// has more than four digits.
    pub fn format_path(&mut self, date: Date) -> (r: Result<String, Error>)
        requires
            date.wf(),
        ensures
            date.has_short_year() ==> (r matches Ok(s) && s@ == date_text(date) + seq![
                '.',
                'b',
                'i',
                'n',
            ] && forall|i: int| 0 <= i < 14 ==> (#[trigger] final(self).inner@[i]) as char == s@[i]),
            !date.has_short_year() ==> (r matches Err(e) && e is DateOutOfRange && final(self).inner@
                == old(self).inner@),
    {
        let name = match snapshot_name(date) {
            Ok(name) => name,
            Err(e) => return Err(e),
        };
        proof {
            lemma_date_text_shape(date);
        }
        let chars = chars_of(name.as_str());
        let mut i: usize = 0;
        while i < 14
            invariant
                chars@ == date_text(date) + seq!['.', 'b', 'i', 'n'],
                chars@.len() == 14,
                forall|j: int| 0 <= j < 10 ==> is_stamp_char(#[trigger] date_text(date)[j]),
                i <= 14,
                forall|j: int| 0 <= j < i ==> (#[trigger] self.inner@[j]) as char == chars@[j],
            decreases 14 - i,
        {
            assert(is_name_char(chars@[i as int])) by {
                if i < 10 {
                    assert(chars@[i as int] == date_text(date)[i as int]);
                }
            }
            let b = stamp_byte(chars[i]);
            self.inner[i] = b;
            i = i + 1;
        }
        Ok(name)
    }
}

} // verus!
