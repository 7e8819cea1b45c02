use std::collections::HashMap;

use dodo::files::{log_record, sample_task, snapshot_name, Bookkeeper, DateBuffer, Rollover};
use dodo::{Date, Error, Priority, Task, TaskSet};

#[test]
fn date_buffer_has_enough_space_to_fit_formatted_date() {
    let buf = DateBuffer::new();

    assert_eq!(buf.inner.len(), "1999-10-22.bin".len());
}

#[test]
fn date_buffer_holds_the_file_name() {
    let mut buf = DateBuffer::new();
    assert_eq!(buf.inner, [0u8; 14]);
    let name = buf.format_path(Date::from_ymd(1999, 10, 22).unwrap()).unwrap();
    assert_eq!(name, "1999-10-22.bin");
    assert_eq!(&buf.inner, b"1999-10-22.bin");
    assert!(matches!(
        buf.format_path(Date::from_ymd(10000, 1, 1).unwrap()),
        Err(Error::DateOutOfRange)
    ));
    assert_eq!(&buf.inner, b"1999-10-22.bin");
}

fn day(y: i32, m: u32, d: u32) -> Date {
    Date::from_ymd(y, m, d).unwrap()
}

#[test]
fn records_and_file_names() {
    assert_eq!(log_record(day(1999, 10, 22)).unwrap(), b"1999-10-22\n".to_vec());
    assert_eq!(snapshot_name(day(1999, 10, 22)).unwrap(), "1999-10-22.bin");
    assert!(matches!(log_record(day(12345, 1, 1)), Err(Error::DateOutOfRange)));
    assert!(matches!(snapshot_name(day(-1, 1, 1)), Err(Error::DateOutOfRange)));
}

#[test]
fn empty_log_means_today() {
    let today = day(2024, 5, 6);
    let bk = Bookkeeper::init(&[], today).unwrap();
    assert_eq!(bk.last_entry, today);
}

#[test]
fn log_of_wrong_length_is_corrupt() {
    let today = day(2024, 5, 6);
    for len in [1usize, 10, 12, 21, 23] {
        let log = vec![b'1'; len];
        assert!(matches!(Bookkeeper::init(&log, today), Err(Error::InvalidBookkeepingFile)));
    }
}

#[test]
fn last_record_gives_last_entry() {
    let today = day(2024, 5, 6);
    let log = b"2024-05-01\n2024-05-03\n".to_vec();
    let bk = Bookkeeper::init(&log, today).unwrap();
    assert_eq!(bk.last_entry, day(2024, 5, 3));
}

#[test]
fn malformed_last_record_is_an_error() {
    let today = day(2024, 5, 6);
    assert!(matches!(
        Bookkeeper::init(b"2024-05-01x", today),
        Err(Error::MalformedLogRecord)
    ));
    assert!(matches!(
        Bookkeeper::init("2024-05-\u{e9}\n".as_bytes(), today),
        Err(Error::MalformedLogRecord)
    ));
    assert!(matches!(Bookkeeper::init(b"2024-13-01\n", today), Err(Error::Chrono(_))));
}

#[test]
fn append_only_when_the_day_changes() {
    let mut bk = Bookkeeper { last_entry: day(2024, 5, 5) };
    let rec = bk.append_to_today(day(2024, 5, 6)).unwrap();
    assert_eq!(rec, Some(b"2024-05-06\n".to_vec()));
    assert_eq!(bk.last_entry, day(2024, 5, 6));
    assert_eq!(bk.append_to_today(day(2024, 5, 6)).unwrap(), None);
}

#[test]
fn rollover_decisions() {
    let today = day(2024, 5, 6);
    let fresh = Bookkeeper { last_entry: today };
    let old = Bookkeeper { last_entry: day(2024, 5, 1) };
    assert_eq!(fresh.rollover(true, today), Rollover::Keep);
    assert_eq!(fresh.rollover(false, today), Rollover::SeedSample);
    assert_eq!(old.rollover(false, today), Rollover::CarryForward);
    assert_eq!(old.rollover(true, today), Rollover::Keep);
}

#[test]
fn sample_task_contents() {
    let today = day(2024, 5, 6);
    let t = sample_task(today);
    assert_eq!(t.name, "Fill out my tasks");
    assert_eq!(t.priority, Priority::High);
    assert!(!t.is_done);
    assert_eq!(t.checklist.len(), 1);
    assert_eq!(t.checklist.get(0).unwrap().description(), "Figure out how to use dodo");
}

/// One run of the daily protocol over an in-memory log and snapshot store.
fn run_once(log: &mut Vec<u8>, store: &mut HashMap<String, TaskSet>, today: Date) {
    let mut bk = Bookkeeper::init(log, today).unwrap();
    let name = snapshot_name(today).unwrap();
    match bk.rollover(store.contains_key(&name), today) {
        Rollover::Keep => {}
        Rollover::SeedSample => {
            if let Some(rec) = bk.append_to_today(today).unwrap() {
                log.extend_from_slice(&rec);
            }
            store.insert(name, TaskSet(vec![sample_task(today)]));
        }
        Rollover::CarryForward => {
            let last = store[&snapshot_name(bk.last_entry).unwrap()].clone();
            if let Some(rec) = bk.append_to_today(today).unwrap() {
                log.extend_from_slice(&rec);
            }
            store.insert(name, last);
        }
    }
}

#[test]
fn rollover_fresh_install_then_same_day() {
    let today = day(2024, 5, 6);
    let mut log = Vec::new();
    let mut store = HashMap::new();
    assert_eq!(Bookkeeper::init(&log, today).unwrap().last_entry, today);

    run_once(&mut log, &mut store, today);
    assert_eq!(store.len(), 1);
    let seeded = &store["2024-05-06.bin"];
    assert_eq!(seeded.0.len(), 1);
    assert_eq!(seeded.0[0].name, "Fill out my tasks");
    assert!(log.is_empty());

    let before = store["2024-05-06.bin"].clone();
    run_once(&mut log, &mut store, today);
    assert_eq!(store.len(), 1);
    assert_eq!(store["2024-05-06.bin"], before);
    assert!(log.is_empty());
}

#[test]
fn rollover_next_day_carries_everything() {
    let yesterday = day(2024, 5, 5);
    let today = day(2024, 5, 6);
    let mut log = b"2024-05-05\n".to_vec();
    let mut store = HashMap::new();
    let mut done: Task = sample_task(yesterday);
    done.is_done = true;
    done.name = "Done already".into();
    let mut open = sample_task(yesterday);
    open.idx = 2;
    store.insert("2024-05-05.bin".to_string(), TaskSet(vec![done, open]));

    run_once(&mut log, &mut store, today);
    assert_eq!(log.len(), 22);
    assert_eq!(&log[11..], b"2024-05-06\n");
    assert_eq!(store["2024-05-06.bin"], store["2024-05-05.bin"]);
    assert_eq!(store["2024-05-06.bin"].0.len(), 2);
    assert!(store["2024-05-06.bin"].0[0].is_done);
    assert!(!store["2024-05-06.bin"].0[1].is_done);
}
