use dodo::Priority;
use dodo::Priority::{High, Low, Medium};

#[test]
fn priority_cmp() {
    assert!(High > Medium);
    assert!(High > Low);

    assert!(Medium > Low);
    assert!(Medium < High);

    assert!(Low < High);
    assert!(Low < Medium);

    assert!(High >= High);
    assert!(Medium >= Medium);
}

#[test]
fn priority_order_is_total_and_strict() {
    let all = [High, Medium, Low];
    for p in all {
        for q in all {
            let n = [p < q, p == q, p > q].iter().filter(|b| **b).count();
            assert_eq!(n, 1);
        }
    }
    assert_eq!(High.partial_cmp(&Low), Some(std::cmp::Ordering::Greater));
}

#[test]
fn priority_text_both_ways() {
    assert_eq!(Priority::High.as_str(), "HIGH");
    assert_eq!(Priority::Medium.as_str(), "MEDIUM");
    assert_eq!(Priority::Low.as_str(), "LOW");
    assert_eq!(Priority::from_str("HIGH"), Some(Priority::High));
    assert_eq!(Priority::from_str("high"), Some(Priority::High));
    assert_eq!(Priority::from_str("medium"), Some(Priority::Medium));
    assert_eq!(Priority::from_str("Medium"), Some(Priority::Medium));
    assert_eq!(Priority::from_str("LOW"), Some(Priority::Low));
    assert_eq!(Priority::from_str("lOw"), Some(Priority::Low));
    assert_eq!(Priority::from_str("mediums"), None);
    assert_eq!(Priority::from_str(""), None);
    assert_eq!(Priority::from_str(" HIGH"), None);
}
