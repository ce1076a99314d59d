use vstd::prelude::*;

verus! {

/// Why an operation on rules or on the rule table was refused.
#[derive(Clone, Copy, PartialEq, Eq, Structural, Debug)]
pub enum AvailabilityError {
    /// A rule whose start is not before its end.
    InvalidRange,
    /// Priority 0 holds the base rule, which cannot be changed.
    ReservedPriority,
    /// The new rule overlaps an absolute rule of the same priority.
    AbsoluteConflict,
    /// The new rule overlaps a relative rule of the same priority on a shared weekday.
    WeekdayConflict,
    /// No layer has the given priority.
    PriorityNotFound,
    /// The layer holds no rule at the given index.
    IndexNotFound,
    /// A relative rule within a single day cannot be split into days.
    UndividableRange,
}

impl AvailabilityError {
    /// A sentence describing the error.
    pub fn message(&self) -> (r: &'static str)
        ensures
            r@ == match self {
                AvailabilityError::InvalidRange => "Start must be before end"@,
                AvailabilityError::ReservedPriority => "Priority 0 is reserved for base rule and cannot be modified"@,
                AvailabilityError::AbsoluteConflict => "New rule overlaps with existing rule"@,
                AvailabilityError::WeekdayConflict => "New rule overlaps with existing rule because of clashing weekdays"@,
                AvailabilityError::PriorityNotFound => "Priority does not exist"@,
                AvailabilityError::IndexNotFound => "Rule index does not exist at this priority level"@,
                AvailabilityError::UndividableRange => "Rule spans only one day and cannot be divided further"@,
            },
    {
        proof {
            reveal_strlit("Start must be before end");
            reveal_strlit("Priority 0 is reserved for base rule and cannot be modified");
            reveal_strlit("New rule overlaps with existing rule");
            reveal_strlit("New rule overlaps with existing rule because of clashing weekdays");
            reveal_strlit("Priority does not exist");
            reveal_strlit("Rule index does not exist at this priority level");
            reveal_strlit("Rule spans only one day and cannot be divided further");
        }
        match self {
            AvailabilityError::InvalidRange => "Start must be before end",
            AvailabilityError::ReservedPriority =>
                "Priority 0 is reserved for base rule and cannot be modified",
            AvailabilityError::AbsoluteConflict => "New rule overlaps with existing rule",
            AvailabilityError::WeekdayConflict =>
                "New rule overlaps with existing rule because of clashing weekdays",
            AvailabilityError::PriorityNotFound => "Priority does not exist",
            AvailabilityError::IndexNotFound => "Rule index does not exist at this priority level",
            AvailabilityError::UndividableRange =>
                "Rule spans only one day and cannot be divided further",
        }
    }
}

} // verus!
