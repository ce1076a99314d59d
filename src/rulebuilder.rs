use crate::datetime::{parse_spec, DateTime};
use crate::rule::Rule;
use crate::weekdays::{ALL_WEEKDAYS, FRIDAY, MONDAY, SATURDAY, SUNDAY, THURSDAY, TUESDAY, WEDNESDAY};
use vstd::prelude::*;
use vstd::utf8::encode_utf8;

verus! {

/// Mask recorded once an unknown weekday name was given.
pub const INVALID_WEEKDAYS: u8 = 0xFF;

/// The lower-case form of a text, as `str::to_lowercase` gives it.
pub uninterp spec fn lower_of(s: Seq<char>) -> Seq<char>;

/// Relies on `str::to_lowercase`: the result depends on the characters alone.
#[verifier::external_body]
fn lowercase(s: &str) -> (r: String)
    ensures
        r@ == lower_of(s@),
{
    s.to_lowercase()
}

/// Why a rule could not be built.
#[derive(Clone, Copy, PartialEq, Eq, Structural, Debug)]
pub enum BuildError {
    MissingStart,
    MissingEnd,
    StartFormat,
    EndFormat,
    StartParse,
    EndParse,
    StartNotBeforeEnd,
    InvalidWeekday,
}

impl BuildError {
    /// A sentence describing the error.
    pub fn message(&self) -> (r: &'static str)
        ensures
            r@ == match self {
                BuildError::MissingStart => "Start time is required and was never set"@,
                BuildError::MissingEnd => "End time is required and was never set"@,
                BuildError::StartFormat => "Invalid start time format. Expected format: YYYY-MM-DD HH:MM:SS"@,
                BuildError::EndFormat => "Invalid end time format. Expected format: YYYY-MM-DD HH:MM:SS"@,
                BuildError::StartParse => "Error parsing start"@,
                BuildError::EndParse => "Error parsing end"@,
                BuildError::StartNotBeforeEnd => "Start must not be after or equal to end"@,
                BuildError::InvalidWeekday => "Invalid weekday encountered."@,
            },
    {
        proof {
            reveal_strlit("Start time is required and was never set");
            reveal_strlit("End time is required and was never set");
            reveal_strlit("Invalid start time format. Expected format: YYYY-MM-DD HH:MM:SS");
            reveal_strlit("Invalid end time format. Expected format: YYYY-MM-DD HH:MM:SS");
            reveal_strlit("Error parsing start");
            reveal_strlit("Error parsing end");
            reveal_strlit("Start must not be after or equal to end");
            reveal_strlit("Invalid weekday encountered.");
        }
        match self {
            BuildError::MissingStart => "Start time is required and was never set",
            BuildError::MissingEnd => "End time is required and was never set",
            BuildError::StartFormat =>
                "Invalid start time format. Expected format: YYYY-MM-DD HH:MM:SS",
            BuildError::EndFormat => "Invalid end time format. Expected format: YYYY-MM-DD HH:MM:SS",
            BuildError::StartParse => "Error parsing start",
            BuildError::EndParse => "Error parsing end",
            BuildError::StartNotBeforeEnd => "Start must not be after or equal to end",
            BuildError::InvalidWeekday => "Invalid weekday encountered.",
        }
    }
}

/// A start or end as given to the builder, read as far as it can be.
#[derive(Clone, Copy, PartialEq, Eq, Structural, Debug)]
pub enum Stamp {
    /// Text that is not 19 bytes long or has no `-`.
    BadFormat,
    /// Text of the right shape that is no valid date and time.
    Unparsed,
    /// A date and time.
    At(DateTime),
}

/// How the text `s` reads as a start or end: 19 bytes holding a `-`, then a
/// date and time in the form `YYYY-MM-DD HH:MM:SS`.
pub open spec fn stamp_of(s: Seq<char>) -> Stamp {
    if !(encode_utf8(s).len() == 19 && encode_utf8(s).contains(45u8)) {
        Stamp::BadFormat
    } else {
        match parse_spec(s) {
            Some(t) => Stamp::At(t),
            None => Stamp::Unparsed,
        }
    }
}

/// The flag of a weekday name, full or abbreviated, in lower case.
pub open spec fn token_flag(t: Seq<char>) -> Option<u8> {
    if t == "monday"@ || t == "mon"@ {
        Some(MONDAY)
    } else if t == "tuesday"@ || t == "tue"@ {
        Some(TUESDAY)
    } else if t == "wednesday"@ || t == "wed"@ {
        Some(WEDNESDAY)
    } else if t == "thursday"@ || t == "thu"@ {
        Some(THURSDAY)
    } else if t == "friday"@ || t == "fri"@ {
        Some(FRIDAY)
    } else if t == "saturday"@ || t == "sat"@ {
        Some(SATURDAY)
    } else if t == "sunday"@ || t == "sun"@ {
        Some(SUNDAY)
    } else {
        None
    }
}

/// The mask after adding the days named in `names`, in any case, to `mask`;
/// `INVALID_WEEKDAYS` as soon as one name is no weekday.
pub open spec fn add_day_names(mask: u8, names: Seq<Seq<char>>) -> u8
    decreases names.len(),
{
    if names.len() == 0 {
        mask
    } else {
        match token_flag(lower_of(names[0])) {
            Some(f) => add_day_names(mask | f, names.drop_first()),
            None => INVALID_WEEKDAYS,
        }
    }
}

/// The outcome of `build` for the given fields.
pub open spec fn build_spec<T>(
    start: Option<Stamp>,
    end: Option<Stamp>,
    weekdays: Option<u8>,
    off: bool,
    payload: Option<T>,
) -> Result<Rule<T>, BuildError> {
    if start.is_none() {
        Err(BuildError::MissingStart)
    } else if end.is_none() {
        Err(BuildError::MissingEnd)
    } else if start == Some(Stamp::BadFormat) {
        Err(BuildError::StartFormat)
    } else if end == Some(Stamp::BadFormat) {
        Err(BuildError::EndFormat)
    } else if start == Some(Stamp::Unparsed) {
        Err(BuildError::StartParse)
    } else if end == Some(Stamp::Unparsed) {
        Err(BuildError::EndParse)
    } else {
        let s = match start.unwrap() {
            Stamp::At(t) => t,
            _ => arbitrary(),
        };
        let e = match end.unwrap() {
            Stamp::At(t) => t,
            _ => arbitrary(),
        };
        if !s.before(e) {
            Err(BuildError::StartNotBeforeEnd)
        } else if weekdays == Some(INVALID_WEEKDAYS) {
            Err(BuildError::InvalidWeekday)
        } else {
            Ok(Rule { start: s, end: e, weekdays, off, payload })
        }
    }
}

/// Reads a start or end given as text.
fn read_stamp(s: &str) -> (r: Stamp)
    ensures
        r == stamp_of(s@),
{
    let bytes = s.as_bytes();
    let mut has_dash = false;
    let mut k: usize = 0;
    while k < bytes.len()
        invariant
            k <= bytes@.len(),
            bytes@ == encode_utf8(s@),
            has_dash == bytes@.take(k as int).contains(45u8),
        decreases bytes@.len() - k,
    {
        let ghost prefix = bytes@.take(k as int);
        let ghost next = bytes@.take(k as int + 1);
        assert(next =~= prefix.push(bytes@[k as int]));
        if bytes[k] == 45u8 {
            has_dash = true;
            assert(next[k as int] == 45u8);
        } else {
            proof {
                if next.contains(45u8) {
                    let i = choose|i: int| 0 <= i < next.len() && next[i] == 45u8;
                    assert(prefix[i] == 45u8);
                }
            }
        }
        k = k + 1;
    }
    assert(bytes@.take(bytes@.len() as int) =~= bytes@);
    if !has_dash || s.len() != 19 {
        return Stamp::BadFormat;
    }
    match DateTime::parse(s) {
        Some(t) => Stamp::At(t),
        None => Stamp::Unparsed,
    }
}

/// The flag of a weekday name in lower case, if it is one.
fn flag_of_token(t: &String) -> (r: Option<u8>)
    ensures
        r == token_flag(t@),
{
    proof {
        reveal_strlit("monday");
        reveal_strlit("mon");
        reveal_strlit("tuesday");
        reveal_strlit("tue");
        reveal_strlit("wednesday");
        reveal_strlit("wed");
        reveal_strlit("thursday");
        reveal_strlit("thu");
        reveal_strlit("friday");
        reveal_strlit("fri");
        reveal_strlit("saturday");
        reveal_strlit("sat");
        reveal_strlit("sunday");
        reveal_strlit("sun");
    }
    if *t == "monday".to_owned() || *t == "mon".to_owned() {
        Some(MONDAY)
    } else if *t == "tuesday".to_owned() || *t == "tue".to_owned() {
        Some(TUESDAY)
    } else if *t == "wednesday".to_owned() || *t == "wed".to_owned() {
        Some(WEDNESDAY)
    } else if *t == "thursday".to_owned() || *t == "thu".to_owned() {
        Some(THURSDAY)
    } else if *t == "friday".to_owned() || *t == "fri".to_owned() {
        Some(FRIDAY)
    } else if *t == "saturday".to_owned() || *t == "sat".to_owned() {
        Some(SATURDAY)
    } else if *t == "sunday".to_owned() || *t == "sun".to_owned() {
        Some(SUNDAY)
    } else {
        None
    }
}

/// Builds a rule field by field; the fields are checked by `build`.
pub struct RuleBuilder<T> {
    pub start: Option<Stamp>,
    pub end: Option<Stamp>,
    pub weekdays: Option<u8>,
    pub off: bool,
    pub payload: Option<T>,
}

impl<T> RuleBuilder<T> {
    /// A builder with no start, end, weekdays or payload, and `off` false.
    pub fn new() -> (r: Self)
        ensures
            r.start.is_none(),
            r.end.is_none(),
            r.weekdays.is_none(),
            !r.off,
            r.payload.is_none(),
    {
        RuleBuilder { start: None, end: None, weekdays: None, off: false, payload: None }
    }

    /// Sets the start from text in the form `YYYY-MM-DD HH:MM:SS`; the text is
    /// checked by `build`.
    pub fn start_time_str(self, datetime_str: &str) -> (r: Self)
        ensures
            r == (RuleBuilder { start: Some(stamp_of(datetime_str@)), ..self }),
    {
        RuleBuilder { start: Some(read_stamp(datetime_str)), ..self }
    }

    /// Sets the end from text in the form `YYYY-MM-DD HH:MM:SS`; the text is
    /// checked by `build`.
    pub fn end_time_str(self, datetime_str: &str) -> (r: Self)
        ensures
            r == (RuleBuilder { end: Some(stamp_of(datetime_str@)), ..self }),
    {
        RuleBuilder { end: Some(read_stamp(datetime_str)), ..self }
    }

    /// Sets the start.
    pub fn start_datetime(self, datetime: DateTime) -> (r: Self)
        ensures
            r == (RuleBuilder { start: Some(Stamp::At(datetime)), ..self }),
    {
        RuleBuilder { start: Some(Stamp::At(datetime)), ..self }
    }

    /// Sets the end.
    pub fn end_datetime(self, datetime: DateTime) -> (r: Self)
        ensures
            r == (RuleBuilder { end: Some(Stamp::At(datetime)), ..self }),
    {
        RuleBuilder { end: Some(Stamp::At(datetime)), ..self }
    }

    /// Adds the named weekdays (`"monday"` or `"mon"`, and so on, in any
    /// case). One name that is no weekday makes `build` fail.
    pub fn weekdays(self, days: &[&str]) -> (r: Self)
        ensures
            r == (RuleBuilder {
                weekdays: Some(
                    add_day_names(
                        self.weekdays.unwrap_or(0u8),
                        days@.map_values(|s: &str| s@),
                    ),
                ),
                ..self
            }),
    {
        let ghost names = days@.map_values(|s: &str| s@);
        let mut mask = match self.weekdays {
            Some(m) => m,
            None => 0,
        };
        let mut k: usize = 0;
        assert(names.skip(0) =~= names);
        while k < days.len()
            invariant
                k <= days@.len(),
                names == days@.map_values(|s: &str| s@),
                add_day_names(mask, names.skip(k as int)) == add_day_names(
                    self.weekdays.unwrap_or(0u8),
                    names,
                ),
            decreases days@.len() - k,
        {
            let lower = lowercase(days[k]);
            assert(names.skip(k as int)[0] == days@[k as int]@);
            assert(names.skip(k as int).drop_first() =~= names.skip(k as int + 1));
            match flag_of_token(&lower) {
                Some(f) => {
                    mask = mask | f;
                },
                None => {
                    mask = INVALID_WEEKDAYS;
                    return RuleBuilder { weekdays: Some(mask), ..self };
                },
            }
            k = k + 1;
        }
        assert(names.skip(k as int) =~= Seq::<Seq<char>>::empty());
        RuleBuilder { weekdays: Some(mask), ..self }
    }

    pub fn monday(self) -> (r: Self)
        ensures
            r == (RuleBuilder { weekdays: Some(self.weekdays.unwrap_or(0u8) | MONDAY), ..self }),
    {
        let val = match self.weekdays {
            Some(m) => m,
            None => 0,
        } | MONDAY;
        RuleBuilder { weekdays: Some(val), ..self }
    }

    pub fn tuesday(self) -> (r: Self)
        ensures
            r == (RuleBuilder { weekdays: Some(self.weekdays.unwrap_or(0u8) | TUESDAY), ..self }),
    {
        let val = match self.weekdays {
            Some(m) => m,
            None => 0,
        } | TUESDAY;
        RuleBuilder { weekdays: Some(val), ..self }
    }

    pub fn wednesday(self) -> (r: Self)
        ensures
            r == (RuleBuilder { weekdays: Some(self.weekdays.unwrap_or(0u8) | WEDNESDAY), ..self }),
    {
        let val = match self.weekdays {
            Some(m) => m,
            None => 0,
        } | WEDNESDAY;
        RuleBuilder { weekdays: Some(val), ..self }
    }

    pub fn thursday(self) -> (r: Self)
        ensures
            r == (RuleBuilder { weekdays: Some(self.weekdays.unwrap_or(0u8) | THURSDAY), ..self }),
    {
        let val = match self.weekdays {
            Some(m) => m,
            None => 0,
        } | THURSDAY;
        RuleBuilder { weekdays: Some(val), ..self }
    }

    pub fn friday(self) -> (r: Self)
        ensures
            r == (RuleBuilder { weekdays: Some(self.weekdays.unwrap_or(0u8) | FRIDAY), ..self }),
    {
        let val = match self.weekdays {
            Some(m) => m,
            None => 0,
        } | FRIDAY;
        RuleBuilder { weekdays: Some(val), ..self }
    }

    pub fn saturday(self) -> (r: Self)
        ensures
            r == (RuleBuilder { weekdays: Some(self.weekdays.unwrap_or(0u8) | SATURDAY), ..self }),
    {
        let val = match self.weekdays {
            Some(m) => m,
            None => 0,
        } | SATURDAY;
        RuleBuilder { weekdays: Some(val), ..self }
    }

    pub fn sunday(self) -> (r: Self)
        ensures
            r == (RuleBuilder { weekdays: Some(self.weekdays.unwrap_or(0u8) | SUNDAY), ..self }),
    {
        let val = match self.weekdays {
            Some(m) => m,
            None => 0,
        } | SUNDAY;
        RuleBuilder { weekdays: Some(val), ..self }
    }

    /// Enables all seven weekdays.
    pub fn all_weekdays(self) -> (r: Self)
        ensures
            r == (RuleBuilder { weekdays: Some(ALL_WEEKDAYS), ..self }),
    {
        RuleBuilder { weekdays: Some(ALL_WEEKDAYS), ..self }
    }

    /// Sets whether the rule is off (closed) or on.
    pub fn off(self, off: bool) -> (r: Self)
        ensures
            r == (RuleBuilder { off, ..self }),
    {
        RuleBuilder { off, ..self }
    }

    /// Attaches a payload to the rule.
    pub fn payload(self, payload: T) -> (r: Self)
        ensures
            r == (RuleBuilder { payload: Some(payload), ..self }),
    {
        RuleBuilder { payload: Some(payload), ..self }
    }

    /// The rule of the fields set: fails when the start or the end is
    /// missing, not in the form `YYYY-MM-DD HH:MM:SS`, or not a valid date and
    /// time, when the start is not before the end, or when an unknown weekday
    /// was named; in that order.
    pub fn build(self) -> (r: Result<Rule<T>, BuildError>)
        ensures
            r == build_spec(self.start, self.end, self.weekdays, self.off, self.payload),
    {
        let start = match self.start {
            None => return Err(BuildError::MissingStart),
            Some(s) => s,
        };
        let end = match self.end {
            None => return Err(BuildError::MissingEnd),
            Some(e) => e,
        };
        if start == Stamp::BadFormat {
            return Err(BuildError::StartFormat);
        }
        if end == Stamp::BadFormat {
            return Err(BuildError::EndFormat);
        }
        let s = match start {
            Stamp::At(t) => t,
            _ => return Err(BuildError::StartParse),
        };
        let e = match end {
            Stamp::At(t) => t,
            _ => return Err(BuildError::EndParse),
        };
        if !s.is_before(&e) {
            return Err(BuildError::StartNotBeforeEnd);
        }
        if self.weekdays == Some(INVALID_WEEKDAYS) {
            return Err(BuildError::InvalidWeekday);
        }
        Ok(Rule { start: s, end: e, weekdays: self.weekdays, off: self.off, payload: self.payload })
    }
}

} // verus!
