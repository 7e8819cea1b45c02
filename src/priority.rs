//! How urgent a task is.
use vstd::prelude::*;
use core::cmp::Ordering;
use vstd::std_specs::cmp::PartialOrdSpec;
use crate::text::{chars_of, eq_ignore_ascii_case, fold_case};

verus! {

/// A task's priority: `High` ranks above `Medium`, which ranks above `Low`.
#[derive(Debug, Clone, Copy, PartialEq, Eq, Structural)]
pub enum Priority {
    High,
    Medium,
    Low,
}

/// The position of a priority in the total order: higher is more urgent.
pub open spec fn rank(p: Priority) -> int {
    match p {
        Priority::High => 2,
        Priority::Medium => 1,
        Priority::Low => 0,
    }
}

/// Orders two integers.
pub open spec fn cmp_int(a: int, b: int) -> Ordering {
    if a < b {
        Ordering::Less
    } else if a == b {
        Ordering::Equal
    } else {
        Ordering::Greater
    }
}

/// The canonical text of a priority: its name in upper case.
pub open spec fn priority_text(p: Priority) -> Seq<char> {
    match p {
        Priority::High => seq!['H', 'I', 'G', 'H'],
        Priority::Medium => seq!['M', 'E', 'D', 'I', 'U', 'M'],
        Priority::Low => seq!['L', 'O', 'W'],
    }
}

/// The priority that a text names, compared without regard to ASCII case.
pub open spec fn priority_of_text(s: Seq<char>) -> Option<Priority> {
    let f = fold_case(s);
    if f == seq!['h', 'i', 'g', 'h'] {
        Some(Priority::High)
    } else if f == seq!['m', 'e', 'd', 'i', 'u', 'm'] {
        Some(Priority::Medium)
    } else if f == seq!['l', 'o', 'w'] {
        Some(Priority::Low)
    } else {
        None
    }
}

impl Priority {
    /// The canonical text of this priority (`"HIGH"`, `"MEDIUM"` or `"LOW"`).
    pub fn as_str(&self) -> (r: &'static str)
        ensures
            r@ == priority_text(*self),
    {
        match self {
            Priority::High => {
                proof {
                    reveal_strlit("HIGH");
                }
                "HIGH"
            },
            Priority::Medium => {
                proof {
                    reveal_strlit("MEDIUM");
                }
                "MEDIUM"
            },
            Priority::Low => {
                proof {
                    reveal_strlit("LOW");
                }
                "LOW"
            },
        }
    }

    /// Reads a priority from its name in any ASCII case
    /// (`"HIGH"`, `"high"`, `"High"`, ...); `None` for any other text.
    pub fn from_str(input: &str) -> (r: Option<Priority>)
        ensures
            r == priority_of_text(input@),
    {
        let s = chars_of(input);
        proof {
            reveal_strlit("high");
            reveal_strlit("medium");
            reveal_strlit("low");
            assert("high"@ =~= seq!['h', 'i', 'g', 'h']);
            assert("medium"@ =~= seq!['m', 'e', 'd', 'i', 'u', 'm']);
            assert("low"@ =~= seq!['l', 'o', 'w']);
        }
        if eq_ignore_ascii_case(&s, "high") {
            Some(Priority::High)
        } else if eq_ignore_ascii_case(&s, "medium") {
            Some(Priority::Medium)
        } else if eq_ignore_ascii_case(&s, "low") {
            Some(Priority::Low)
        } else {
            None
        }
    }

    /// The rank of this priority as a machine integer.
    pub fn rank_exec(&self) -> (r: u8)
        ensures
            r as int == rank(*self),
    {
        match self {
            Priority::High => 2,
            Priority::Medium => 1,
            Priority::Low => 0,
        }
    }
}

impl PartialOrd for Priority {
    fn partial_cmp(&self, other: &Priority) -> (r: Option<Ordering>)
        ensures
            r == Some(cmp_int(rank(*self), rank(*other))),
    {
        let a = self.rank_exec();
        let b = other.rank_exec();
        if a < b {
            Some(Ordering::Less)
        } else if a == b {
            Some(Ordering::Equal)
        } else {
            Some(Ordering::Greater)
        }
    }
}

impl vstd::std_specs::cmp::PartialOrdSpecImpl for Priority {
    open spec fn obeys_partial_cmp_spec() -> bool {
        true
    }

    open spec fn partial_cmp_spec(&self, other: &Priority) -> Option<Ordering> {
        Some(cmp_int(rank(*self), rank(*other)))
    }
}

/// Any two priorities compare as exactly one of less, equal or greater, equal
/// exactly when they are the same priority, and `High > Medium > Low` strictly.
pub proof fn lemma_priority_total_order(p: Priority, q: Priority)
    ensures
        p.partial_cmp_spec(&q) is Some,
        (p.partial_cmp_spec(&q) == Some(Ordering::Equal)) <==> p == q,
        (p.partial_cmp_spec(&q) == Some(Ordering::Less)) <==> (q.partial_cmp_spec(&p) == Some(Ordering::Greater)),
        Priority::High.partial_cmp_spec(&Priority::Medium) == Some(Ordering::Greater),
        Priority::Medium.partial_cmp_spec(&Priority::Low) == Some(Ordering::Greater),
        Priority::High.partial_cmp_spec(&Priority::Low) == Some(Ordering::Greater),
{
}

/// Reading back the canonical text of a priority gives that priority.
pub proof fn lemma_priority_text_round_trip(p: Priority)
    ensures
        priority_of_text(priority_text(p)) == Some(p),
{
    let t = priority_text(p);
    assert(fold_case(t) =~= match p {
        Priority::High => seq!['h', 'i', 'g', 'h'],
        Priority::Medium => seq!['m', 'e', 'd', 'i', 'u', 'm'],
        Priority::Low => seq!['l', 'o', 'w'],
    });
    assert(seq!['h', 'i', 'g', 'h'] != seq!['m', 'e', 'd', 'i', 'u', 'm']);
    assert(seq!['h', 'i', 'g', 'h'][1] != seq!['l', 'o', 'w'][1]);
    assert(seq!['m', 'e', 'd', 'i', 'u', 'm'] != seq!['l', 'o', 'w']);
}

} // verus!
