use availability::util::{_is_zero, is_empty, is_false};
use availability::weekdays::{
    get_days_from_mask, is_within_weekdays, weekday_of, FRIDAY, MONDAY, SATURDAY, SUNDAY, THURSDAY, TUESDAY, WEDNESDAY,
};
use availability::datetime::DateTime;

#[test]
fn test_weekday_constants() {
    assert_eq!(MONDAY, 0b00000001);
    assert_eq!(TUESDAY, 0b00000010);
    assert_eq!(WEDNESDAY, 0b00000100);
    assert_eq!(THURSDAY, 0b00001000);
    assert_eq!(FRIDAY, 0b00010000);
    assert_eq!(SATURDAY, 0b00100000);
    assert_eq!(SUNDAY, 0b01000000);

    assert_eq!(MONDAY & TUESDAY, 0);
    assert_eq!(WEDNESDAY & THURSDAY, 0);
    assert_eq!(FRIDAY & SATURDAY, 0);
    assert_eq!(SUNDAY & MONDAY, 0);
}

#[test]
fn test_get_days_from_mask_single_days() {
    assert_eq!(get_days_from_mask(MONDAY), vec!["monday"]);
    assert_eq!(get_days_from_mask(TUESDAY), vec!["tuesday"]);
    assert_eq!(get_days_from_mask(WEDNESDAY), vec!["wednesday"]);
    assert_eq!(get_days_from_mask(THURSDAY), vec!["thursday"]);
    assert_eq!(get_days_from_mask(FRIDAY), vec!["friday"]);
    assert_eq!(get_days_from_mask(SATURDAY), vec!["saturday"]);
    assert_eq!(get_days_from_mask(SUNDAY), vec!["sunday"]);
}

#[test]
fn test_get_days_from_mask_multiple_days() {
    let weekdays = MONDAY | TUESDAY | WEDNESDAY | THURSDAY | FRIDAY;
    assert_eq!(
        get_days_from_mask(weekdays),
        vec!["monday", "tuesday", "wednesday", "thursday", "friday"]
    );

    let weekend = SATURDAY | SUNDAY;
    assert_eq!(get_days_from_mask(weekend), vec!["saturday", "sunday"]);

    let mon_wed_fri = MONDAY | WEDNESDAY | FRIDAY;
    assert_eq!(
        get_days_from_mask(mon_wed_fri),
        vec!["monday", "wednesday", "friday"]
    );
}

#[test]
fn test_get_days_from_mask_edge_cases() {
    assert_eq!(get_days_from_mask(0), Vec::<&str>::new());

    let all_days = MONDAY | TUESDAY | WEDNESDAY | THURSDAY | FRIDAY | SATURDAY | SUNDAY;
    assert_eq!(
        get_days_from_mask(all_days),
        vec!["monday", "tuesday", "wednesday", "thursday", "friday", "saturday", "sunday"]
    );

    let mask_with_invalid_bits = MONDAY | WEDNESDAY | 0b10000000;
    assert_eq!(
        get_days_from_mask(mask_with_invalid_bits),
        vec!["monday", "wednesday"]
    );
}

#[test]
fn test_get_days_from_mask_order() {
    let forward = MONDAY | TUESDAY | WEDNESDAY;
    let reverse = WEDNESDAY | TUESDAY | MONDAY;

    assert_eq!(get_days_from_mask(forward), get_days_from_mask(reverse));
    assert_eq!(
        get_days_from_mask(forward),
        vec!["monday", "tuesday", "wednesday"]
    );
}

#[test]
fn weekday_of_known_dates() {
    // 2024-04-29 was a Monday, 2024-05-05 a Sunday.
    let monday = DateTime::from_ymd_hms(2024, 4, 29, 12, 0, 0).unwrap();
    let sunday = DateTime::from_ymd_hms(2024, 5, 5, 12, 0, 0).unwrap();
    assert_eq!(weekday_of(monday.day), MONDAY);
    assert_eq!(weekday_of(monday.day + 1), TUESDAY);
    assert_eq!(weekday_of(sunday.day), SUNDAY);
    assert_eq!(weekday_of(1), MONDAY);
    assert_eq!(weekday_of(0), SUNDAY);
    assert_eq!(weekday_of(-6), MONDAY);
}

#[test]
fn test_is_within_weekday() {
    let weekdays = MONDAY | TUESDAY | WEDNESDAY | THURSDAY | FRIDAY;
    let day = |text: &str| DateTime::parse(text).unwrap().date();

    assert_eq!(is_within_weekdays(day("2024-04-29 12:00:00"), weekdays), true);
    assert_eq!(is_within_weekdays(day("2024-04-30 12:00:00"), weekdays), true);
    assert_eq!(is_within_weekdays(day("2024-05-01 12:00:00"), weekdays), true);
    assert_eq!(is_within_weekdays(day("2024-05-02 12:00:00"), weekdays), true);
    assert_eq!(is_within_weekdays(day("2024-05-03 12:00:00"), weekdays), true);
    assert_eq!(is_within_weekdays(day("2024-05-04 12:00:00"), weekdays), false);
    assert_eq!(is_within_weekdays(day("2024-05-05 12:00:00"), weekdays), false);
    assert_eq!(is_within_weekdays(day("2024-05-06 12:00:00"), weekdays), true);
}

#[test]
fn small_predicates() {
    assert!(is_false(&false));
    assert!(!is_false(&true));
    assert!(is_empty::<u8>(&Vec::new()));
    assert!(!is_empty(&vec![1u8]));
    assert!(_is_zero(&0));
    assert!(!_is_zero(&7));
}
