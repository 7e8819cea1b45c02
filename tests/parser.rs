use dodo::date::today;
use dodo::parser::{
    parse_checkbox, parse_checkmark, parse_index, parse_priority, parse_task, parse_task_header,
    ParseFailure, TaskHeader,
};
use dodo::{Checkbox, Checklist, Date, Parser, Priority, Task, TaskSet};

#[test]
fn parses_number_tags() {
    assert_eq!(parse_index("5."), Ok(("", 5)));
    assert_eq!(parse_index("123."), Ok(("", 123)));

    assert!(parse_index("5").is_err());
}

#[test]
fn index_edge_cases() {
    assert_eq!(parse_index("."), Err(ParseFailure));
    assert_eq!(parse_index("  7. rest"), Ok((" rest", 7)));
    assert_eq!(parse_index("4294967295."), Ok(("", 4294967295)));
    assert_eq!(parse_index("4294967296."), Err(ParseFailure));
}

#[test]
fn parses_checkmark() {
    assert_eq!(parse_checkmark("[x]"), Ok(("", true)));
    assert_eq!(parse_checkmark("[X]"), Ok(("", true)));
    assert_eq!(parse_checkmark("[ ]"), Ok(("", false)));

    assert!(parse_checkmark("[]").is_err());
    assert!(parse_checkmark("{x}").is_err());
}

#[test]
fn parses_checkboxes() {
    assert_eq!(
        parse_checkbox("  * [x] Finish this test"),
        Ok(("", Checkbox::with_description("Finish this test".into()).with_status(true)))
    );

    assert_eq!(
        parse_checkbox("*[ ] Finish this test\n"),
        Ok(("\n", Checkbox::with_description("Finish this test".into()).with_status(false)))
    );
}

#[test]
fn empty_checkbox_description_is_legal() {
    assert_eq!(
        parse_checkbox("* [ ]   \nnext"),
        Ok(("\nnext", Checkbox::with_description("".into())))
    );
}

#[test]
fn parses_priority() {
    assert_eq!(parse_priority("[HIGH]"), Ok(("", Priority::High)));

    assert_eq!(parse_priority("[MEDIUM]"), Ok(("", Priority::Medium)));

    assert_eq!(parse_priority("[LOW]"), Ok(("", Priority::Low)));
}

#[test]
fn priority_case_and_errors() {
    assert_eq!(parse_priority("[medium]"), Ok(("", Priority::Medium)));
    assert_eq!(parse_priority("[High] x"), Ok((" x", Priority::High)));
    assert!(parse_priority("[URGENT]").is_err());
    assert!(parse_priority("[HIGH").is_err());
    assert!(parse_priority(" [HIGH]").is_err());
}

fn task(name: &str, done: bool, priority: Priority, boxes: Vec<Checkbox>) -> Task {
    Task {
        idx: 1,
        name: name.into(),
        is_done: done,
        creation_date: today(),
        due_date: None,
        priority,
        checklist: Checklist::with_checkboxes(boxes),
    }
}

#[test]
fn parse_task_0() {
    let task_text = "1. [ ] Fill out my tasks [HIGH]\n";

    assert_eq!(
        parse_task(task_text),
        Ok(("\n", task("Fill out my tasks", false, Priority::High, vec![])))
    );
}

#[test]
fn parse_task_1() {
    let task_text = "1. [ ] Fill out my tasks [HIGH]\n  * [ ] Figure out how to use dodo\n";

    assert_eq!(
        parse_task(task_text),
        Ok((
            "\n",
            task(
                "Fill out my tasks",
                false,
                Priority::High,
                vec![Checkbox::with_description("Figure out how to use dodo".into())]
            )
        ))
    );
}

#[test]
fn parse_task_2() {
    let task_text = "1. [ ] Fill out my tasks [HIGH]\n  * [ ] Figure out how to use dodo\n* [x] Make this test pass\n";

    assert_eq!(
        parse_task(task_text),
        Ok((
            "\n",
            task(
                "Fill out my tasks",
                false,
                Priority::High,
                vec![
                    Checkbox::with_description("Figure out how to use dodo".into()),
                    Checkbox::with_description("Make this test pass".into()).with_status(true)
                ]
            )
        ))
    );
}

#[test]
fn parses_many_tasks() {
    let text = "1. [ ] Fill out my tasks [HIGH]\n  * [ ] Figure out how to use dodo\n* [x] Make this test pass\n2. [ ] Update taskset [HIGH]\n  * [ ] Do the dishes\n";

    let mut second = task(
        "Update taskset",
        false,
        Priority::High,
        vec![Checkbox::with_description("Do the dishes".into())],
    );
    second.idx = 2;
    assert_eq!(
        Parser::parse(text).unwrap(),
        TaskSet(vec![
            task(
                "Fill out my tasks",
                false,
                Priority::High,
                vec![
                    Checkbox::with_description("Figure out how to use dodo".into()),
                    Checkbox::with_description("Make this test pass".into()).with_status(true)
                ]
            ),
            second
        ])
    );
}

#[test]
fn parses_task_header() {
    assert_eq!(
        parse_task_header("1. [ ] Fill out my tasks [HIGH]"),
        Ok((
            "",
            TaskHeader {
                idx: 1,
                is_checked: false,
                name: "Fill out my tasks",
                priority: Priority::High
            }
        ))
    );

    assert_eq!(
        parse_task_header("20.[x] Finish this test [MEDIUM]"),
        Ok((
            "",
            TaskHeader {
                idx: 20,
                is_checked: true,
                name: "Finish this test",
                priority: Priority::Medium
            }
        ))
    );
}

#[test]
fn empty_name_is_legal() {
    assert_eq!(
        parse_task_header("3. [X] [low]"),
        Ok(("", TaskHeader { idx: 3, is_checked: true, name: "", priority: Priority::Low }))
    );
}

#[test]
fn parse_of_empty_text_is_empty() {
    assert_eq!(Parser::parse("").unwrap(), TaskSet(vec![]));
    assert_eq!(Parser::parse("   \n\n ").unwrap(), TaskSet(vec![]));
}

#[test]
fn parse_of_garbage_is_empty() {
    assert_eq!(Parser::parse("garbage text with no structure").unwrap(), TaskSet(vec![]));
}

#[test]
fn parse_drops_trailing_garbage() {
    let parsed = Parser::parse("1. [ ] Buy milk [HIGH]\nsome trailing garbage").unwrap();
    assert_eq!(parsed.0.len(), 1);
    assert_eq!(parsed.0[0].name, "Buy milk");
    assert_eq!(parsed.0[0].priority, Priority::High);
}

#[test]
fn index_is_kept_not_checked() {
    let day = Date::from_ymd(2024, 3, 1).unwrap();
    let parsed = Parser::parse_dated("7. [ ] a [LOW]\n9. [x] b [HIGH]\n", day);
    assert_eq!(parsed.0.len(), 2);
    assert_eq!(parsed.0[0].idx, 7);
    assert_eq!(parsed.0[1].idx, 9);
    assert_eq!(parsed.0[1].creation_date, day);
    assert_eq!(parsed.check_for_invalid_indices(), Some(1));
}

#[test]
fn render_then_parse_gives_the_tasks_back() {
    let day = Date::from_ymd(2024, 3, 1).unwrap();
    let mut first = task(
        "Write the report",
        true,
        Priority::Medium,
        vec![
            Checkbox::with_description("outline".into()).with_status(true),
            Checkbox::with_description("draft it".into()),
        ],
    );
    first.creation_date = day;
    let mut second = task("", false, Priority::Low, vec![]);
    second.creation_date = day;
    second.idx = 2;
    let set = TaskSet(vec![first, second]);
    let parsed = Parser::parse_dated(&set.to_text(), day);
    assert_eq!(parsed, set);
}
