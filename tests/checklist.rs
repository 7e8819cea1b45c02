use dodo::{Checkbox, Checklist};

fn numbered() -> Checklist {
    let numbers: Vec<Checkbox> = (0..=9)
        .map(|x: i32| x.to_string())
        .map(Checkbox::with_description)
        .collect();
    Checklist::with_checkboxes(numbers)
}

#[test]
fn into_iter() {
    let checkboxes = numbered();

    for (idx, checkbox) in checkboxes.into_checkboxes().into_iter().enumerate() {
        assert_eq!(checkbox.description(), idx.to_string());
    }
}

#[test]
fn get_and_get_mut() {
    let mut checkboxes = numbered();
    assert_eq!(checkboxes.len(), 10);
    assert!(checkboxes.get(4).unwrap().description() == "4");
    assert!(checkboxes.get(9).unwrap().description() == "9");

    assert!(!checkboxes.get(3).unwrap().is_done());
    checkboxes.get_mut(3).unwrap().toggle();
    assert!(checkboxes.get(3).unwrap().is_done());

    assert!(checkboxes.get(9).is_some());
    assert!(checkboxes.get(10).is_none());

    assert!(checkboxes.get_mut(9).is_some());
    assert!(checkboxes.get_mut(10).is_none());
}

#[test]
fn checkbox_toggle_and_description() {
    let mut item = Checkbox::with_description("some item".into());
    assert_eq!(item.description(), "some item");
    assert!(!item.is_done());
    item.toggle();
    assert!(item.is_done());
    item.toggle();
    assert!(!item.is_done());
    assert_eq!(Checkbox::with_description("a".into()).with_status(true).to_text(), "[x] a");
    assert_eq!(Checkbox::with_description("b".into()).to_text(), "[ ] b");
}

#[test]
fn all_done_on_empty_and_after_push() {
    let mut cklist = Checklist::with_checkboxes(vec![]);
    assert!(cklist.is_empty());
    assert!(cklist.all_done());

    let mut dishes = Checkbox::with_description("do the dishes".into());
    dishes.toggle();
    cklist.push(dishes);
    assert!(cklist.all_done());
    assert!(!cklist.is_empty());

    cklist.push(Checkbox::with_description("study for calculus".into()));
    assert!(!cklist.all_done());
}

#[test]
fn remove_swaps_in_the_last() {
    let mut cklist = numbered();
    let removed = cklist.remove(2);
    assert_eq!(removed.description(), "2");
    assert_eq!(cklist.len(), 9);
    assert_eq!(cklist.get(2).unwrap().description(), "9");
    assert_eq!(cklist.get(8).unwrap().description(), "8");
    let last = cklist.remove(8);
    assert_eq!(last.description(), "8");
    assert_eq!(cklist.len(), 8);
}

#[test]
fn checklist_text_lines() {
    let cklist = Checklist::with_checkboxes(vec![
        Checkbox::with_description("one".into()),
        Checkbox::with_description("two".into()).with_status(true),
    ]);
    assert_eq!(cklist.to_text(), "    * [ ] one\n    * [x] two\n");
    assert_eq!(cklist.clone(), cklist);
}
