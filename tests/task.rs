use chrono::Datelike;
use dodo::date::today;
use dodo::{Checkbox, Checklist, Date, Priority, Task, TaskSet};

fn dummy_task() -> Task {
    Task {
        idx: 1,
        name: "Dummy".into(),
        is_done: false,
        creation_date: today(),
        due_date: None,
        priority: Priority::Low,
        checklist: Checklist::with_checkboxes(vec![Checkbox::with_description(
            "Procurar metodologia".into(),
        )]),
    }
}

fn from_chrono(d: chrono::NaiveDate) -> Date {
    Date::from_ymd(d.year(), d.month(), d.day()).unwrap()
}

#[test]
fn display() {
    println!("{t}", t = dummy_task().to_text());
}

#[test]
fn task_ord_differing_priorities() {
    let mut task1 = dummy_task();
    let mut task2 = dummy_task();

    assert_eq!(task1.priority, Priority::Low);
    assert_eq!(task2.priority, Priority::Low);

    task1.priority = Priority::Medium;

    assert!(task1 > task2);

    task2.priority = Priority::High;

    assert!(task2 > task1);
}

#[test]
fn task_ord_differing_due_dates() {
    let mut task1 = dummy_task();
    let mut task2 = dummy_task();

    let today = chrono::Local::now().date_naive();
    let a_day = chrono::Duration::days(1);
    let a_week = chrono::Duration::weeks(1);

    let tomorrow = today + a_day;
    let a_week_from_now = today + a_week;

    task1.due_date = Some(from_chrono(tomorrow));
    task2.due_date = Some(from_chrono(a_week_from_now));

    assert!(task1.priority == task2.priority);

    // Task no. 1 has the priority since it's closer to its
    // due date than task no. 2
    assert!(task1 > task2);

    task2.due_date = Some(from_chrono(today));

    // Task no. 2 now has the priority since it's closer to
    // its due date than task no. 1
    assert!(task1 < task2);
}

#[test]
fn priority_decides_over_due_dates() {
    let mut urgent = dummy_task();
    let mut relaxed = dummy_task();
    urgent.priority = Priority::High;
    relaxed.priority = Priority::Low;
    urgent.due_date = Some(Date::from_ymd(2030, 1, 1).unwrap());
    relaxed.due_date = Some(Date::from_ymd(2020, 1, 1).unwrap());
    assert!(urgent > relaxed);
    assert!(relaxed < urgent);
}

#[test]
fn equal_priority_and_one_due_date_compare_equal() {
    let mut a = dummy_task();
    let b = dummy_task();
    a.due_date = Some(Date::from_ymd(2020, 1, 1).unwrap());
    assert_eq!(a.partial_cmp(&b), Some(std::cmp::Ordering::Equal));
}

#[test]
fn dates_are_checked() {
    assert!(Date::from_ymd(2024, 2, 29).is_some());
    assert!(Date::from_ymd(2023, 2, 29).is_none());
    assert!(Date::from_ymd(1900, 2, 29).is_none());
    assert!(Date::from_ymd(2000, 2, 29).is_some());
    assert!(Date::from_ymd(2024, 4, 31).is_none());
    assert!(Date::from_ymd(2024, 13, 1).is_none());
    assert!(Date::from_ymd(2024, 1, 0).is_none());
    assert_eq!(
        Date::from_ymd(1999, 10, 22).unwrap().compare(&Date::from_ymd(1999, 11, 1).unwrap()),
        std::cmp::Ordering::Less
    );
}

#[test]
fn date_text_round_trip() {
    let d = Date::from_ymd(1999, 10, 2).unwrap();
    assert_eq!(dodo::date::date_to_text(d).unwrap(), "1999-10-02");
    assert_eq!(dodo::date::date_to_text(Date::from_ymd(7, 1, 5).unwrap()).unwrap(), "0007-01-05");
    assert_eq!(dodo::date::date_to_text(Date::from_ymd(10000, 1, 5).unwrap()), None);
    assert_eq!(dodo::date::date_from_text("1999-10-02").unwrap(), d);
    assert!(dodo::date::date_from_text("1999-13-02").is_err());
    assert!(today().month >= 1);
}

#[test]
fn task_set_text_numbers_tasks() {
    let mut second = dummy_task();
    second.name = "Second".into();
    second.is_done = true;
    second.priority = Priority::High;
    second.checklist = Checklist::with_checkboxes(vec![]);
    let set = TaskSet(vec![dummy_task(), second]);
    assert_eq!(
        set.to_text(),
        "1. [ ] Dummy [LOW]\n    * [ ] Procurar metodologia\n\n2. [x] Second [HIGH]\n\n"
    );
}

#[test]
fn invalid_indices_are_found() {
    let mut second = dummy_task();
    second.idx = 3;
    let set = TaskSet(vec![dummy_task(), second]);
    assert_eq!(set.check_for_invalid_indices(), Some(2));
    let mut fixed = set.clone();
    fixed.0[1].idx = 2;
    assert_eq!(fixed.check_for_invalid_indices(), None);
    assert_eq!(TaskSet(vec![]).check_for_invalid_indices(), None);
}
