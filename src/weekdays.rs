use vstd::prelude::*;

verus! {

pub const MONDAY: u8 = 1;

pub const TUESDAY: u8 = 2;

pub const WEDNESDAY: u8 = 4;

pub const THURSDAY: u8 = 8;

pub const FRIDAY: u8 = 16;

pub const SATURDAY: u8 = 32;

pub const SUNDAY: u8 = 64;

pub const ALL_WEEKDAYS: u8 = 127;

/// The flag of the `i`-th day of the week, Monday being day 0.
pub open spec fn day_flag(i: int) -> u8 {
    if i == 0 {
        MONDAY
    } else if i == 1 {
        TUESDAY
    } else if i == 2 {
        WEDNESDAY
    } else if i == 3 {
        THURSDAY
    } else if i == 4 {
        FRIDAY
    } else if i == 5 {
        SATURDAY
    } else {
        SUNDAY
    }
}

/// The lower-case English name of the `i`-th day of the week.
pub open spec fn day_name(i: int) -> Seq<char> {
    if i == 0 {
        "monday"@
    } else if i == 1 {
        "tuesday"@
    } else if i == 2 {
        "wednesday"@
    } else if i == 3 {
        "thursday"@
    } else if i == 4 {
        "friday"@
    } else if i == 5 {
        "saturday"@
    } else {
        "sunday"@
    }
}

/// Whether day `i` is enabled in the mask.
pub open spec fn has_day(mask: u8, i: int) -> bool {
    mask & day_flag(i) != 0
}

/// The names of the days enabled among the first `n` days of the week,
/// Monday first.
pub open spec fn names_upto(mask: u8, n: int) -> Seq<Seq<char>>
    decreases n,
{
    if n <= 0 {
        Seq::empty()
    } else if has_day(mask, n - 1) {
        names_upto(mask, n - 1).push(day_name(n - 1))
    } else {
        names_upto(mask, n - 1)
    }
}

/// The names of all days enabled in the mask, Monday first.
pub open spec fn day_names(mask: u8) -> Seq<Seq<char>> {
    names_upto(mask, 7)
}

/// The index (Monday = 0 .. Sunday = 6) of the weekday of a day counted
/// from the first of January of year 1, which was a Monday and is day 1.
pub open spec fn weekday_index(day: int) -> int {
    (day - 1) % 7
}

/// The flag of the weekday of a day number.
pub open spec fn weekday_flag(day: int) -> u8 {
    day_flag(weekday_index(day))
}

fn push_if(days: &mut Vec<&'static str>, mask: u8, flag: u8, name: &'static str) -> (i: u8)
    ensures
        final(days)@.map_values(|s: &str| s@) == (if mask & flag != 0 {
            old(days)@.map_values(|s: &str| s@).push(name@)
        } else {
            old(days)@.map_values(|s: &str| s@)
        }),
        i == flag,
{
    if mask & flag != 0 {
        days.push(name);
        proof {
            assert(final(days)@.map_values(|s: &str| s@) =~= old(days)@.map_values(|s: &str| s@).push(name@));
        }
    }
    flag
}

/// The names of the days enabled in `mask`, Monday first; bits outside the
/// seven day flags are ignored.
pub fn get_days_from_mask(mask: u8) -> (days: Vec<&'static str>)
    ensures
        days@.map_values(|s: &str| s@) == day_names(mask),
{
    let mut days: Vec<&'static str> = Vec::new();
    proof {
        assert(days@.map_values(|s: &str| s@) =~= names_upto(mask, 0));
        reveal_strlit("monday");
        reveal_strlit("tuesday");
        reveal_strlit("wednesday");
        reveal_strlit("thursday");
        reveal_strlit("friday");
        reveal_strlit("saturday");
        reveal_strlit("sunday");
    }
    push_if(&mut days, mask, MONDAY, "monday");
    push_if(&mut days, mask, TUESDAY, "tuesday");
    push_if(&mut days, mask, WEDNESDAY, "wednesday");
    push_if(&mut days, mask, THURSDAY, "thursday");
    push_if(&mut days, mask, FRIDAY, "friday");
    push_if(&mut days, mask, SATURDAY, "saturday");
    push_if(&mut days, mask, SUNDAY, "sunday");
    proof {
        reveal_with_fuel(names_upto, 8);
    }
    days
}

/// The flag of the weekday of the given day number.
pub fn weekday_of(day: i32) -> (flag: u8)
    ensures
        flag == weekday_flag(day as int),
{
    let shifted: i64 = day as i64 - 1 + 7 * 400_000_000;
    let idx: u64 = (shifted as u64) % 7;
    assert(idx as int == weekday_index(day as int)) by {
        assert((shifted as int) % 7 == ((day as int - 1) + 7 * 400_000_000) % 7);
        vstd::arithmetic::div_mod::lemma_mod_multiples_vanish(400_000_000, day as int - 1, 7);
    }
    if idx == 0 {
        MONDAY
    } else if idx == 1 {
        TUESDAY
    } else if idx == 2 {
        WEDNESDAY
    } else if idx == 3 {
        THURSDAY
    } else if idx == 4 {
        FRIDAY
    } else if idx == 5 {
        SATURDAY
    } else {
        SUNDAY
    }
}

/// True if the weekday of the given day number is enabled in `weekdays`.
pub fn is_within_weekdays(day: i32, weekdays: u8) -> (r: bool)
    ensures
        r == (weekdays & weekday_flag(day as int) != 0),
{
    weekdays & weekday_of(day) != 0
}

} // verus!
