use crate::datetime::DateTime;
use crate::error::AvailabilityError;
use crate::weekdays::{weekday_flag, weekday_of};
use vstd::prelude::*;

verus! {

/// First day (day number) of the base rule: 0001-01-01.
pub const BASE_RULE_DAY_START: i32 = 1;

/// Day after the base rule ends (day number): 10000-01-01.
pub const BASE_RULE_DAY_END: i32 = 3652060;

/// A time-bounded availability directive over `[start, end)`.
///
/// A rule without weekdays, or with an empty weekday mask, is absolute: it
/// applies on every day of its span. Otherwise it is relative and applies only
/// on the enabled weekdays, from the start's time of day to the end's.
#[derive(Clone, Debug)]
pub struct Rule<T> {
    pub start: DateTime,
    pub end: DateTime,
    pub weekdays: Option<u8>,
    pub off: bool,
    pub payload: Option<T>,
}

/// `b` is a clone of `a`: both absent, or both present with `b`'s value cloned from `a`'s.
pub open spec fn payload_copy<T: Clone>(a: Option<T>, b: Option<T>) -> bool {
    match (a, b) {
        (None, None) => true,
        (Some(x), Some(y)) => cloned(x, y),
        _ => false,
    }
}

/// The days in `[first, last]` whose weekday is enabled in `mask`, ascending.
pub open spec fn enabled_days(mask: u8, first: int, last: int) -> Seq<int>
    decreases last - first + 1,
{
    if last < first {
        Seq::empty()
    } else if mask & weekday_flag(last) != 0 {
        enabled_days(mask, first, last - 1).push(last)
    } else {
        enabled_days(mask, first, last - 1)
    }
}

impl<T> Rule<T> {
    pub open spec fn wf(self) -> bool {
        self.start.wf() && self.end.wf() && self.start.before(self.end)
    }

    pub open spec fn absolute(self) -> bool {
        self.weekdays.is_none() || self.weekdays == Some(0u8)
    }

    pub open spec fn weekday_enabled(self, t: DateTime) -> bool {
        match self.weekdays {
            Some(m) => m & weekday_flag(t.day as int) != 0,
            None => false,
        }
    }

    pub open spec fn within(self, t: DateTime) -> bool {
        self.start.not_after(t) && t.before(self.end)
    }

    pub open spec fn time_within(self, secs: u32) -> bool {
        self.start.secs <= secs && secs < self.end.secs
    }

    pub open spec fn active(self, t: DateTime) -> bool {
        self.within(t) && self.time_within(t.secs) && (self.absolute() || self.weekday_enabled(t))
    }

    pub open spec fn overlaps(self, other: Rule<T>) -> bool {
        self.start.before(other.end) && other.start.before(self.end)
    }

    pub open spec fn shares_weekday(self, other: Rule<T>) -> bool {
        match (self.weekdays, other.weekdays) {
            (Some(a), Some(b)) => a & b != 0,
            _ => false,
        }
    }

    /// The days on which a relative rule yields a single-day piece.
    pub open spec fn piece_days(self) -> Seq<int> {
        enabled_days(self.weekdays.unwrap_or(0u8), self.start.day as int, self.end.day as int)
    }

    /// The error that splitting this rule into absolute single-day rules
    /// meets, if any.
    pub open spec fn split_error(self) -> Option<AvailabilityError> {
        if self.absolute() {
            None
        } else if self.start.day == self.end.day {
            Some(AvailabilityError::UndividableRange)
        } else if self.piece_days().len() > 0 && self.end.secs <= self.start.secs {
            Some(AvailabilityError::InvalidRange)
        } else {
            None
        }
    }

    /// The `k`-th single-day piece of a relative rule has the rule's times of
    /// day, on the `k`-th enabled day, with no weekday filter.
    pub open spec fn is_piece(self, k: int, piece: Rule<T>) -> bool where T: Clone {
        &&& piece.start == (DateTime { day: self.piece_days()[k] as i32, secs: self.start.secs })
        &&& piece.end == (DateTime { day: self.piece_days()[k] as i32, secs: self.end.secs })
        &&& piece.weekdays.is_none()
        &&& piece.off == self.off
        &&& payload_copy(self.payload, piece.payload)
    }

    /// A rule over `[start, end)`; fails with `InvalidRange` unless `start`
    /// comes before `end`.
    pub fn new(start: DateTime, end: DateTime, weekdays: Option<u8>, off: bool, payload: Option<T>) -> (r:
        Result<Rule<T>, AvailabilityError>)
        ensures
            start.before(end) ==> r == Ok::<Rule<T>, AvailabilityError>(
                Rule { start, end, weekdays, off, payload },
            ),
            !start.before(end) ==> r == Err::<Rule<T>, AvailabilityError>(
                AvailabilityError::InvalidRange,
            ),
    {
        if !start.is_before(&end) {
            return Err(AvailabilityError::InvalidRange);
        }
        Ok(Rule { start, end, weekdays, off, payload })
    }

    /// True if the rule applies at `date_time`: within `[start, end)`, within
    /// the rule's times of day, and, for a relative rule, on an enabled weekday.
    pub fn is_active(&self, date_time: DateTime) -> (r: bool)
        ensures
            r == self.active(date_time),
    {
        if self.is_absolute() {
            self.is_date_time_within(date_time) && self.is_time_within(date_time.secs)
        } else {
            self.is_weekday_enabled(date_time) && self.is_date_time_within(date_time)
                && self.is_time_within(date_time.secs)
        }
    }

    /// True if the rule is on and applies at `date_time`.
    pub fn is_open(&self, date_time: DateTime) -> (r: bool)
        ensures
            r == (!self.off && self.active(date_time)),
    {
        if self.off {
            return false;
        }
        self.is_active(date_time)
    }

    /// True if the spans `[start, end)` of the two rules intersect, whatever
    /// their weekdays.
    pub fn datetime_overlaps_with(&self, other: &Rule<T>) -> (r: bool)
        ensures
            r == self.overlaps(*other),
    {
        self.start.is_before(&other.end) && other.start.is_before(&self.end)
    }

    /// True if the weekday of `date_time` is enabled in the rule's weekdays;
    /// false for a rule without weekdays.
    pub fn is_weekday_enabled(&self, date_time: DateTime) -> (r: bool)
        ensures
            r == self.weekday_enabled(date_time),
    {
        let flag = weekday_of(date_time.day);
        match self.weekdays {
            Some(enabled_days) => enabled_days & flag != 0,
            None => false,
        }
    }

    /// True if the rule has no weekday filter or an empty one.
    pub fn is_absolute(&self) -> (r: bool)
        ensures
            r == self.absolute(),
    {
        match self.weekdays {
            Some(weekdays) => weekdays == 0,
            None => true,
        }
    }

    /// True if the rule has a non-empty weekday filter.
    pub fn is_relative(&self) -> (r: bool)
        ensures
            r == !self.absolute(),
    {
        match self.weekdays {
            Some(weekdays) => weekdays != 0,
            None => false,
        }
    }

    /// True if `time` lies in `[start, end)`, whatever its time of day.
    pub fn is_date_time_within(&self, time: DateTime) -> (r: bool)
        ensures
            r == self.within(time),
    {
        !time.is_before(&self.start) && time.is_before(&self.end)
    }

    /// True if the second of the day `time` lies between the start's and the
    /// end's times of day.
    pub fn is_time_within(&self, time: u32) -> (r: bool)
        ensures
            r == self.time_within(time),
    {
        time >= self.start.secs && time < self.end.secs
    }

    /// The rule of priority 0: absolute, off, without payload, over all days
    /// from the first of January of year 1 to that of year 10000.
    pub fn base_rule() -> (r: Rule<T>)
        ensures
            r.start == (DateTime { day: BASE_RULE_DAY_START, secs: 0 }),
            r.end == (DateTime { day: BASE_RULE_DAY_END, secs: 0 }),
            r.weekdays.is_none(),
            r.off,
            r.payload.is_none(),
            r.wf(),
    {
        Rule {
            start: DateTime { day: BASE_RULE_DAY_START, secs: 0 },
            end: DateTime { day: BASE_RULE_DAY_END, secs: 0 },
            weekdays: None,
            off: true,
            payload: None,
        }
    }

    /// True if both rules have weekdays and share at least one.
    pub fn has_weekdays_in(&self, other: &Rule<T>) -> (r: bool)
        ensures
            r == self.shares_weekday(*other),
    {
        match (self.weekdays, other.weekdays) {
            (Some(self_days), Some(other_days)) => self_days & other_days != 0,
            _ => false,
        }
    }
}

impl<T: Clone> Rule<T> {
    /// A rule with the same fields, its payload cloned.
    pub fn duplicate(&self) -> (r: Rule<T>)
        ensures
            r.start == self.start,
            r.end == self.end,
            r.weekdays == self.weekdays,
            r.off == self.off,
            payload_copy(self.payload, r.payload),
    {
        Rule {
            start: self.start,
            end: self.end,
            weekdays: self.weekdays,
            off: self.off,
            payload: self.payload.clone(),
        }
    }
}

/// Splits a rule into absolute rules: an absolute rule is returned as it is; a
/// relative one yields, for each day of its span whose weekday is enabled, an
/// absolute rule over that day from the start's time of day to the end's.
pub fn relative_to_absolute_rules<T: Clone>(rule: Rule<T>) -> (r: Result<Vec<Rule<T>>, AvailabilityError>)
    requires
        rule.wf(),
    ensures
        rule.absolute() ==> (r matches Ok(v) && v@ == seq![rule]),
        match rule.split_error() {
            Some(e) => r == Err::<Vec<Rule<T>>, AvailabilityError>(e),
            None => !rule.absolute() ==> (r matches Ok(v) && v@.len() == rule.piece_days().len()
                && forall|k: int| 0 <= k < v@.len() ==> rule.is_piece(k, #[trigger] v@[k])),
        },
{
    if rule.is_absolute() {
        return Ok(vec![rule]);
    }
    if rule.start.day == rule.end.day {
        return Err(AvailabilityError::UndividableRange);
    }
    let mask = rule.weekdays.unwrap_or(0);
    let ghost days = rule.piece_days();
    let mut absolute_rules: Vec<Rule<T>> = Vec::new();
    let mut current_day: i64 = rule.start.day as i64;
    let last: i64 = rule.end.day as i64;
    while current_day <= last
        invariant
            rule.wf(),
            !rule.absolute(),
            mask == rule.weekdays.unwrap_or(0u8),
            days == rule.piece_days(),
            rule.start.day <= current_day <= last + 1,
            last == rule.end.day,
            absolute_rules@.len() == enabled_days(mask, rule.start.day as int, current_day - 1).len(),
            enabled_days(mask, rule.start.day as int, current_day - 1).len() > 0
                ==> rule.start.secs < rule.end.secs,
            forall|k: int|
                0 <= k < absolute_rules@.len() ==> {
                    let d = enabled_days(mask, rule.start.day as int, current_day - 1)[k];
                    let p = #[trigger] absolute_rules@[k];
                    &&& p.start == (DateTime { day: d as i32, secs: rule.start.secs })
                    &&& p.end == (DateTime { day: d as i32, secs: rule.end.secs })
                    &&& p.weekdays.is_none()
                    &&& p.off == rule.off
                    &&& payload_copy(rule.payload, p.payload)
                },
            forall|k: int|
                0 <= k < enabled_days(mask, rule.start.day as int, current_day - 1).len()
                    ==> rule.start.day <= #[trigger] enabled_days(mask, rule.start.day as int, current_day - 1)[k]
                    < current_day,
        decreases last + 1 - current_day,
    {
        let day = current_day as i32;
        let ghost prev = enabled_days(mask, rule.start.day as int, current_day - 1);
        proof {
            lemma_enabled_days_range(mask, rule.start.day as int, current_day - 1);
        }
        if mask & weekday_of(day) != 0 {
            let start = DateTime { day, secs: rule.start.secs };
            let end = DateTime { day, secs: rule.end.secs };
            match Rule::new(start, end, None, rule.off, rule.payload.clone()) {
                Ok(new_rule) => absolute_rules.push(new_rule),
                Err(e) => {
                    proof {
                        lemma_enabled_days_grow(mask, rule.start.day as int, current_day as int, last as int);
                    }
                    return Err(e);
                },
            }
            assert(enabled_days(mask, rule.start.day as int, current_day as int) == prev.push(
                current_day as int,
            ));
        } else {
            assert(enabled_days(mask, rule.start.day as int, current_day as int) == prev);
        }
        current_day = current_day + 1;
    }
    Ok(absolute_rules)
}

proof fn lemma_enabled_days_range(mask: u8, first: int, last: int)
    ensures
        forall|k: int|
            0 <= k < enabled_days(mask, first, last).len() ==> first <= #[trigger] enabled_days(
                mask,
                first,
                last,
            )[k] <= last,
    decreases last - first + 1,
{
    if last >= first {
        lemma_enabled_days_range(mask, first, last - 1);
        let prev = enabled_days(mask, first, last - 1);
        assert forall|k: int| 0 <= k < enabled_days(mask, first, last).len() implies first
            <= #[trigger] enabled_days(mask, first, last)[k] <= last by {
            if k < prev.len() {
                assert(enabled_days(mask, first, last)[k] == prev[k]);
            }
        }
    }
}

/// Once a day is enabled, every later prefix holds at least one day.
proof fn lemma_enabled_days_grow(mask: u8, first: int, mid: int, last: int)
    requires
        first <= mid <= last,
        enabled_days(mask, first, mid).len() > 0,
    ensures
        enabled_days(mask, first, last).len() > 0,
    decreases last - mid,
{
    if last > mid {
        lemma_enabled_days_grow(mask, first, mid, last - 1);
    }
}

} // verus!
