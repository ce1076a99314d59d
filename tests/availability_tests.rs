use availability::availability::Availability;
use availability::datetime::DateTime;
use availability::error::AvailabilityError;
use availability::rule::Rule;
use availability::rulebuilder::RuleBuilder;
use availability::weekdays::{FRIDAY, MONDAY, THURSDAY, TUESDAY, WEDNESDAY};
use serde_json::Value;

fn create_datetime(year: i32, month: u32, day: u32, hour: u32, min: u32, sec: u32) -> DateTime {
    DateTime::from_ymd_hms(year, month, day, hour, min, sec).unwrap()
}

fn info(text: &str) -> Value {
    let mut map = serde_json::Map::new();
    map.insert("info".to_string(), Value::String(text.to_string()));
    Value::Object(map)
}

#[test]
fn test_new_empty() {
    let availability: Availability<Value> = Availability::new();
    assert_eq!(availability.rules.len(), 1);
    assert_eq!(availability.frames.len(), 0);

    let base_rule = &availability.rules[0][0];
    assert!(base_rule.off);
    assert!(base_rule.is_absolute());
    assert!(base_rule.payload.is_none());
}

#[test]
fn test_add_rule_priority_validation() {
    let mut availability: Availability<Value> = Availability::new();
    let rule = Rule::new(
        create_datetime(2024, 1, 1, 9, 0, 0),
        create_datetime(2024, 1, 1, 17, 0, 0),
        None,
        false,
        None,
    )
    .unwrap();

    let result = availability.add_rule(rule, 0);
    assert!(result.is_err());
    assert_eq!(
        result.unwrap_err().message(),
        "Priority 0 is reserved for base rule and cannot be modified"
    );
}

#[test]
fn test_add_rule_absolute_overlap() {
    let mut availability: Availability<Value> = Availability::new();
    let rule1 = Rule::new(
        create_datetime(2024, 1, 1, 9, 0, 0),
        create_datetime(2024, 1, 1, 17, 0, 0),
        None,
        false,
        None,
    )
    .unwrap();
    availability.add_rule(rule1, 1).unwrap();

    let rule2 = Rule::new(
        create_datetime(2024, 1, 1, 12, 0, 0),
        create_datetime(2024, 1, 1, 18, 0, 0),
        None,
        false,
        None,
    )
    .unwrap();

    let result = availability.add_rule(rule2, 1);
    assert!(result.is_err());
    assert!(result.unwrap_err().message().contains("overlaps with existing rule"));
}

#[test]
fn test_add_rule_relative_overlap() {
    let mut availability: Availability<Value> = Availability::new();
    let rule1 = Rule::new(
        create_datetime(2024, 1, 1, 9, 0, 0),
        create_datetime(2024, 1, 31, 17, 0, 0),
        Some(MONDAY | TUESDAY | WEDNESDAY),
        false,
        None,
    )
    .unwrap();
    availability.add_rule(rule1, 1).unwrap();

    let rule2 = Rule::new(
        create_datetime(2024, 1, 1, 9, 0, 0),
        create_datetime(2024, 1, 31, 17, 0, 0),
        Some(WEDNESDAY | THURSDAY | FRIDAY),
        false,
        None,
    )
    .unwrap();

    let result = availability.add_rule(rule2, 1);
    assert!(result.is_err());
    let err = result.unwrap_err();
    assert!(err.message().contains("clashing weekdays"));
    assert_eq!(err, AvailabilityError::WeekdayConflict);
}

#[test]
fn test_remove_rule_validation() {
    let mut availability: Availability<Value> = Availability::new();

    let result = availability.remove_rule_by_index(1, 0);
    assert!(result.is_err());
    assert_eq!(result.unwrap_err(), AvailabilityError::PriorityNotFound);

    let result = availability.remove_rule_by_index(0, 0);
    assert!(result.is_err());
    assert_eq!(
        result.unwrap_err().message(),
        "Priority 0 is reserved for base rule and cannot be modified"
    );
}

#[test]
fn test_to_frames_in_range() {
    // no custom rules: one off frame over the window
    {
        let mut availability: Availability<Value> = Availability::new();
        let start = create_datetime(2024, 1, 1, 0, 0, 0);
        let end = create_datetime(2024, 1, 1, 23, 59, 0);

        availability.to_frames_in_range(start, end);
        assert_eq!(
            availability.frames.len(),
            1,
            "Should have exactly one frame for entire range"
        );
        let frame = &availability.frames[0];
        assert_eq!(frame.start, start);
        assert_eq!(frame.end, end);
        assert!(frame.off);
    }

    // one open rule inside the window
    {
        let mut availability: Availability<Value> = Availability::new();
        let rule = Rule::new(
            create_datetime(2024, 1, 1, 9, 0, 0),
            create_datetime(2024, 1, 1, 12, 0, 0),
            None,
            false,
            Some(info("morning shift")),
        )
        .unwrap();
        availability.add_rule(rule, 1).unwrap();

        let start = create_datetime(2024, 1, 1, 8, 0, 0);
        let end = create_datetime(2024, 1, 1, 13, 0, 0);

        availability.to_frames_in_range(start, end);
        assert_eq!(availability.frames.len(), 3);
        assert_eq!(availability.frames[0].start, create_datetime(2024, 1, 1, 8, 0, 0));
        assert_eq!(availability.frames[0].end, create_datetime(2024, 1, 1, 9, 0, 0));
        assert!(availability.frames[0].off);

        assert_eq!(availability.frames[1].start, create_datetime(2024, 1, 1, 9, 0, 0));
        assert_eq!(availability.frames[1].end, create_datetime(2024, 1, 1, 12, 0, 0));
        assert!(!availability.frames[1].off);
        assert_eq!(
            availability.frames[1].payload.as_ref().unwrap()["info"],
            "morning shift"
        );

        assert_eq!(availability.frames[2].start, create_datetime(2024, 1, 1, 12, 0, 0));
        assert_eq!(availability.frames[2].end, create_datetime(2024, 1, 1, 13, 0, 0));
        assert!(availability.frames[2].off);
    }

    // a closed rule of higher priority inside an open one
    {
        let mut availability: Availability<Value> = Availability::new();
        let all_day_rule = Rule::new(
            create_datetime(2024, 1, 1, 9, 0, 0),
            create_datetime(2024, 1, 1, 12, 0, 0),
            None,
            false,
            Some(info("low-prio open")),
        )
        .unwrap();
        availability.add_rule(all_day_rule, 1).unwrap();

        let closed_mid_rule = Rule::new(
            create_datetime(2024, 1, 1, 10, 0, 0),
            create_datetime(2024, 1, 1, 11, 0, 0),
            None,
            true,
            Some(info("high-prio closed")),
        )
        .unwrap();
        availability.add_rule(closed_mid_rule, 2).unwrap();

        availability.to_frames_in_range(
            create_datetime(2024, 1, 1, 9, 0, 0),
            create_datetime(2024, 1, 1, 12, 0, 0),
        );
        assert_eq!(availability.frames.len(), 3);

        let f1 = &availability.frames[0];
        assert_eq!(f1.start, create_datetime(2024, 1, 1, 9, 0, 0));
        assert_eq!(f1.end, create_datetime(2024, 1, 1, 10, 0, 0));
        assert!(!f1.off);
        assert_eq!(f1.payload.as_ref().unwrap()["info"], "low-prio open");

        let f2 = &availability.frames[1];
        assert_eq!(f2.start, create_datetime(2024, 1, 1, 10, 0, 0));
        assert_eq!(f2.end, create_datetime(2024, 1, 1, 11, 0, 0));
        assert!(f2.off);
        assert_eq!(f2.payload.as_ref().unwrap()["info"], "high-prio closed");

        let f3 = &availability.frames[2];
        assert_eq!(f3.start, create_datetime(2024, 1, 1, 11, 0, 0));
        assert_eq!(f3.end, create_datetime(2024, 1, 1, 12, 0, 0));
        assert!(!f3.off);
        assert_eq!(f3.payload.as_ref().unwrap()["info"], "low-prio open");
    }

    // two adjacent rules of one priority cover the window with no gap
    {
        let mut availability: Availability<Value> = Availability::new();
        let open_rule = Rule::new(
            create_datetime(2024, 1, 1, 0, 0, 0),
            create_datetime(2024, 1, 1, 6, 0, 0),
            None,
            false,
            None,
        )
        .unwrap();
        let closed_rule = Rule::new(
            create_datetime(2024, 1, 1, 6, 0, 0),
            create_datetime(2024, 1, 1, 12, 0, 0),
            None,
            true,
            None,
        )
        .unwrap();
        availability.add_rule(open_rule, 1).unwrap();
        availability.add_rule(closed_rule, 1).unwrap();

        let start = create_datetime(2024, 1, 1, 0, 0, 0);
        let end = create_datetime(2024, 1, 1, 12, 0, 0);
        availability.to_frames_in_range(start, end);

        assert_eq!(availability.frames.len(), 2);
        assert_eq!(availability.frames[0].start, create_datetime(2024, 1, 1, 0, 0, 0));
        assert_eq!(availability.frames[0].end, create_datetime(2024, 1, 1, 6, 0, 0));
        assert!(!availability.frames[0].off);

        assert_eq!(availability.frames[1].start, create_datetime(2024, 1, 1, 6, 0, 0));
        assert_eq!(availability.frames[1].end, create_datetime(2024, 1, 1, 12, 0, 0));
        assert!(availability.frames[1].off);
    }
}

#[test]
fn relative_rules_on_disjoint_weekdays_share_a_layer() {
    let mut availability: Availability<Value> = Availability::new();
    let first = Rule::new(
        create_datetime(2024, 1, 1, 9, 0, 0),
        create_datetime(2024, 1, 31, 17, 0, 0),
        Some(MONDAY | TUESDAY | WEDNESDAY),
        false,
        Some(info("first")),
    )
    .unwrap();
    let second = Rule::new(
        create_datetime(2024, 1, 1, 9, 0, 0),
        create_datetime(2024, 1, 31, 17, 0, 0),
        Some(THURSDAY | FRIDAY),
        false,
        Some(info("second")),
    )
    .unwrap();
    availability.add_rule(first, 3).unwrap();
    assert!(availability.add_rule(second, 3).is_ok());
    assert_eq!(availability.rules.len(), 4);
    assert_eq!(availability.rules[1].len(), 0);
    assert_eq!(availability.rules[3].len(), 2);

    // 2024-01-01 is a Monday: only the first rule applies
    let removed = availability
        .remove_rule_by_datetime(3, create_datetime(2024, 1, 1, 12, 0, 0))
        .unwrap();
    assert_eq!(removed.payload.unwrap()["info"], "first");
    assert_eq!(availability.rules[3].len(), 1);
}

#[test]
fn absolute_rule_after_relative_one_is_accepted() {
    let mut availability: Availability<Value> = Availability::new();
    let relative = Rule::new(
        create_datetime(2024, 1, 1, 9, 0, 0),
        create_datetime(2024, 1, 31, 17, 0, 0),
        Some(MONDAY),
        false,
        None,
    )
    .unwrap();
    let absolute = Rule::new(
        create_datetime(2024, 1, 2, 9, 0, 0),
        create_datetime(2024, 1, 2, 17, 0, 0),
        None,
        false,
        None,
    )
    .unwrap();
    availability.add_rule(relative, 1).unwrap();
    assert!(availability.add_rule(absolute.clone(), 1).is_ok());

    let mut other: Availability<Value> = Availability::new();
    other.add_rule(absolute, 1).unwrap();
    let relative = Rule::new(
        create_datetime(2024, 1, 1, 9, 0, 0),
        create_datetime(2024, 1, 31, 17, 0, 0),
        Some(MONDAY),
        false,
        None,
    )
    .unwrap();
    assert_eq!(
        other.add_rule(relative, 1).unwrap_err(),
        AvailabilityError::AbsoluteConflict
    );
}

#[test]
fn removing_last_rule_of_highest_layer_drops_it() {
    let mut availability: Availability<Value> = Availability::new();
    let rule = Rule::new(
        create_datetime(2024, 1, 1, 9, 0, 0),
        create_datetime(2024, 1, 1, 17, 0, 0),
        None,
        false,
        None,
    )
    .unwrap();
    availability.add_rule(rule.clone(), 1).unwrap();
    availability.add_rule(rule, 2).unwrap();
    let removed = availability.remove_rule_by_index(1, 0).unwrap();
    assert_eq!(removed.start, create_datetime(2024, 1, 1, 9, 0, 0));
    assert_eq!(availability.rules.len(), 3);
    assert_eq!(availability.rules[1].len(), 0);
    assert_eq!(
        availability.remove_rule_by_index(2, 5).unwrap_err(),
        AvailabilityError::IndexNotFound
    );
    availability.remove_rule_by_index(2, 0).unwrap();
    assert_eq!(availability.rules.len(), 2);
    assert!(availability
        .remove_rule_by_datetime(0, create_datetime(2024, 1, 1, 12, 0, 0))
        .is_none());
}

#[test]
fn get_frame_finds_the_containing_frame() {
    let mut availability: Availability<Value> = Availability::new();
    let rule = Rule::new(
        create_datetime(2024, 1, 1, 9, 0, 0),
        create_datetime(2024, 1, 1, 12, 0, 0),
        None,
        false,
        Some(info("open")),
    )
    .unwrap();
    availability.add_rule(rule, 1).unwrap();
    availability.to_frames_in_range_str("2024-01-01 08:00:00", "2024-01-01 13:00:00");
    assert_eq!(availability.get_frames().len(), 3);

    let frame = availability.get_frame(create_datetime(2024, 1, 1, 10, 0, 0)).unwrap();
    assert!(frame.is_on());
    assert_eq!(frame.payload().unwrap()["info"], "open");
    assert_eq!(frame.duration(), 3 * 3600);

    let frame = availability.get_frame_from_str("2024-01-01 12:00:00").unwrap();
    assert!(frame.is_off());
    assert!(frame.payload().is_none());
    assert_eq!(frame.start_datetime(), create_datetime(2024, 1, 1, 12, 0, 0));
    assert_eq!(frame.end_datetime(), create_datetime(2024, 1, 1, 13, 0, 0));

    assert!(availability.get_frame(create_datetime(2024, 1, 1, 13, 0, 0)).is_none());
    assert!(availability.get_frame_from_str("not a date").is_none());

    availability.clear_frames();
    assert!(availability.frames().is_empty());
}

#[test]
fn full_derivation_covers_all_time() {
    let mut availability: Availability<Value> = Availability::new();
    let rule = Rule::new(
        create_datetime(2024, 1, 1, 9, 0, 0),
        create_datetime(2024, 1, 1, 12, 0, 0),
        None,
        false,
        Some(info("open")),
    )
    .unwrap();
    availability.add_rule(rule, 1).unwrap();
    availability.to_frames();
    let frames = availability.frames();
    assert_eq!(frames.len(), 3);
    assert_eq!(frames[0].start, create_datetime(1, 1, 1, 0, 0, 0));
    assert_eq!(frames[0].end, create_datetime(2024, 1, 1, 9, 0, 0));
    assert!(frames[0].off);
    assert_eq!(frames[1].start, create_datetime(2024, 1, 1, 9, 0, 0));
    assert!(!frames[1].off);
    assert_eq!(frames[2].start, create_datetime(2024, 1, 1, 12, 0, 0));
    assert_eq!(frames[2].end, create_datetime(10000, 1, 1, 0, 0, 0));
    assert!(frames[2].off);
}

#[test]
fn relative_rule_yields_one_frame_per_enabled_day() {
    let mut availability: Availability<Value> = Availability::new();
    // 2024-01-01 is a Monday
    let rule = Rule::new(
        create_datetime(2024, 1, 1, 9, 0, 0),
        create_datetime(2024, 1, 7, 17, 0, 0),
        Some(MONDAY | WEDNESDAY),
        false,
        None,
    )
    .unwrap();
    availability.add_rule(rule, 1).unwrap();
    availability.to_frames_in_range(
        create_datetime(2024, 1, 1, 0, 0, 0),
        create_datetime(2024, 1, 4, 0, 0, 0),
    );
    let frames = availability.frames();
    assert_eq!(frames.len(), 5);
    assert_eq!(frames[1].start, create_datetime(2024, 1, 1, 9, 0, 0));
    assert_eq!(frames[1].end, create_datetime(2024, 1, 1, 17, 0, 0));
    assert!(!frames[1].off);
    assert_eq!(frames[2].start, create_datetime(2024, 1, 1, 17, 0, 0));
    assert_eq!(frames[2].end, create_datetime(2024, 1, 3, 9, 0, 0));
    assert!(frames[2].off);
    assert_eq!(frames[3].end, create_datetime(2024, 1, 3, 17, 0, 0));
    for pair in frames.windows(2) {
        assert_eq!(pair[0].end, pair[1].start);
    }
}

#[test]
fn leap_second_end_gives_a_full_day() {
    let start = DateTime::parse("2024-01-01 00:00:00").unwrap();
    let leap = DateTime::parse("2024-01-01 23:59:60").unwrap();
    let next = DateTime::parse("2024-01-02 00:00:00").unwrap();
    assert_eq!(leap.time(), 86400);
    assert!(leap.is_before(&next));
    assert_eq!(leap.seconds_since(&start), 86400);
    assert_eq!(next.seconds_since(&leap), 0);
    assert!(DateTime::parse("2024-01-32 09:00:00").is_none());
    assert!(DateTime::from_ymd_hms(2024, 2, 30, 0, 0, 0).is_none());
    assert!(DateTime::from_ymd_hms(2024, 2, 1, 24, 0, 0).is_none());
}

fn kind(text: &str) -> Value {
    let mut map = serde_json::Map::new();
    map.insert("type".to_string(), Value::String(text.to_string()));
    Value::Object(map)
}

#[test]
fn test_remove_rule() {
    let mut availability: Availability<Value> = Availability::new();

    let rule = Rule::new(
        create_datetime(2024, 1, 1, 9, 0, 0),
        create_datetime(2024, 1, 1, 17, 0, 0),
        None,
        false,
        None,
    )
    .unwrap();

    availability.add_rule(rule.clone(), 1).unwrap();

    let removed = availability.remove_rule_by_index(1, 0).unwrap();
    assert_eq!(removed.start, rule.start);
    assert_eq!(removed.end, rule.end);

    assert_eq!(availability.rules.len(), 1);

    availability.add_rule(rule.clone(), 1).unwrap();
    let removed = availability.remove_rule_by_datetime(1, rule.start).unwrap();
    assert_eq!(removed.start, rule.start);

    availability.add_rule(rule.clone(), 1).unwrap();
    let removed = availability.remove_rule_by_str(1, "2024-01-01 09:00:00").unwrap();
    assert_eq!(removed.start, rule.start);

    let rule1 = RuleBuilder::new()
        .start_time_str("2024-01-01 09:00:00")
        .end_time_str("2024-01-31 17:00:00")
        .monday()
        .tuesday()
        .wednesday()
        .payload(kind("regular"))
        .build()
        .unwrap();
    let rule2 = RuleBuilder::new()
        .start_time_str("2024-01-01 09:00:00")
        .end_time_str("2024-01-31 17:00:00")
        .thursday()
        .friday()
        .payload(kind("special"))
        .build()
        .unwrap();
    availability.add_rule(rule1, 2).unwrap();
    availability.add_rule(rule2, 2).unwrap();
    let removed = availability
        .remove_rule_by_str(2, "2024-01-01 12:00:00")
        .unwrap();
    assert_eq!(
        removed.payload.unwrap()["type"].as_str().unwrap(),
        "regular"
    );
    assert_eq!(availability.rules[2].len(), 1);
}

#[test]
fn crash_test() {
    let mut availability: Availability<()> = Availability::new();
    let rule: Rule<()> = RuleBuilder::new()
        .start_time_str("1970-01-01 00:00:00")
        .end_time_str("2999-12-30 01:00:00")
        .all_weekdays()
        .off(false)
        .build()
        .unwrap();
    let _ = availability.add_rule(rule, 1);
    availability.to_frames_in_range_str("2024-10-29 13:20:27", "2024-11-01 09:20:00");
    let frames = availability.get_frames();
    assert_eq!(frames.len(), 7);
}

#[test]
fn crash_test2() {
    let mut availability: Availability<()> = Availability::new();
    let rule: Rule<()> = RuleBuilder::new()
        .start_time_str("1970-01-01 00:00:00")
        .end_time_str("2999-12-30 00:00:00")
        .all_weekdays()
        .off(false)
        .build()
        .unwrap();
    let _ = availability.add_rule(rule, 1);
    availability.to_frames_in_range_str("2024-10-29 13:20:27", "2024-11-01 09:20:00");
    let frames = availability.get_frames();
    assert_eq!(frames.len(), 1);
}

#[test]
fn test_frame_duration_midnight() {
    let mut availability: Availability<()> = Availability::new();
    let rule: Rule<()> = RuleBuilder::new()
        .start_time_str("2024-01-01 00:00:00")
        .end_time_str("2024-01-01 23:59:60")
        .off(false)
        .all_weekdays()
        .build()
        .unwrap();
    availability.add_rule(rule, 1).unwrap();
    availability.to_frames_in_range_str("2024-01-01 00:00:00", "2024-01-02 00:00:00");
    let frames = availability.get_frames();
    assert_eq!(frames.len(), 1);
    assert!(frames[0].duration() == 86400);

    let mut availability: Availability<()> = Availability::new();
    let rule: Rule<()> = RuleBuilder::new()
        .start_time_str("2024-01-01 00:00:00")
        .end_time_str("2024-01-02 00:00:00")
        .off(false)
        .all_weekdays()
        .build()
        .unwrap();
    availability.add_rule(rule, 1).unwrap();
    availability.to_frames_in_range_str("2024-01-01 00:00:00", "2024-01-02 00:00:00");
    let frames = availability.get_frames();
    assert_eq!(frames.len(), 1);
    assert!(frames[0].duration() == 86400);
}

#[test]
fn leap_second_frame_of_zero_length_is_dropped() {
    let mut availability: Availability<()> = Availability::new();
    let rule: Rule<()> = RuleBuilder::new()
        .start_time_str("2024-01-01 09:00:00")
        .end_time_str("2024-01-01 23:59:60")
        .build()
        .unwrap();
    availability.add_rule(rule, 1).unwrap();
    availability.to_frames_in_range_str("2024-01-01 00:00:00", "2024-01-02 00:00:00");
    let frames = availability.get_frames();
    // the trailing filler [23:59:60, 00:00) lasts no time and is left out
    assert_eq!(frames.len(), 2);
    assert!(frames[0].off);
    assert!(!frames[1].off);
    assert_eq!(frames[1].end, DateTime::parse("2024-01-01 23:59:60").unwrap());
    assert_eq!(frames[1].duration(), 15 * 3600);
}

#[test]
fn base_layer_is_read_only() {
    let mut availability: Availability<Value> = Availability::new();
    assert_eq!(availability.rules.len(), 1);
    assert_eq!(availability.rules[0].len(), 1);
    let rule = Rule::new(
        create_datetime(2024, 1, 1, 9, 0, 0),
        create_datetime(2024, 1, 1, 17, 0, 0),
        None,
        false,
        None,
    )
    .unwrap();
    assert_eq!(
        availability.add_rule(rule, 0).unwrap_err(),
        AvailabilityError::ReservedPriority
    );
    assert_eq!(
        availability.remove_rule_by_index(0, 0).unwrap_err(),
        AvailabilityError::ReservedPriority
    );
    assert!(availability
        .remove_rule_by_datetime(0, create_datetime(2024, 1, 1, 12, 0, 0))
        .is_none());
    assert!(availability.remove_rule_by_str(0, "2024-01-01 12:00:00").is_none());
    assert_eq!(availability.rules.len(), 1);
    assert_eq!(availability.rules[0].len(), 1);
}

#[test]
fn point_queries() {
    let mut availability: Availability<Value> = Availability::new();
    let rule = Rule::new(
        create_datetime(2024, 1, 1, 9, 0, 0),
        create_datetime(2024, 1, 1, 12, 0, 0),
        None,
        false,
        Some(info("open")),
    )
    .unwrap();
    availability.add_rule(rule, 1).unwrap();
    availability.to_frames_in_range(
        create_datetime(2024, 1, 1, 8, 0, 0),
        create_datetime(2024, 1, 1, 13, 0, 0),
    );
    assert!(availability.is_open_at(create_datetime(2024, 1, 1, 9, 0, 0)));
    assert!(!availability.is_open_at(create_datetime(2024, 1, 1, 12, 0, 0)));
    assert!(!availability.is_open_at(create_datetime(2024, 1, 1, 20, 0, 0)));
    assert_eq!(
        availability.payload_at(create_datetime(2024, 1, 1, 11, 59, 59)).unwrap()["info"],
        "open"
    );
    assert!(availability.payload_at(create_datetime(2024, 1, 1, 8, 30, 0)).is_none());
}

#[test]
fn window_str_that_does_not_parse_changes_nothing() {
    let mut availability: Availability<Value> = Availability::new();
    availability.to_frames_in_range_str("2024-01-01 08:00:00", "2024-01-01 13:00:00");
    assert_eq!(availability.frames.len(), 1);
    availability.to_frames_in_range_str("2024-01-01 08:00:00", "tomorrow");
    assert_eq!(availability.frames.len(), 1);
    assert_eq!(availability.frames[0].end, create_datetime(2024, 1, 1, 13, 0, 0));
}
