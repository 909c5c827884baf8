use sankhya::{
    civil_from_days, is_reserved, AxisError, Configuration, DateAxis, DateSource, Granularity, DATA_DATE_COLUMN,
    GRANULARITY_KEY, SOURCE_KEY,
};

const LEAP_MARCH: i32 = 19_783;

#[test]
fn the_column_is_named_once_and_everything_agrees() {
    assert_eq!(DATA_DATE_COLUMN, "sank_data_date");
    assert!(is_reserved(DATA_DATE_COLUMN));
}

#[test]
fn a_table_says_whether_its_date_is_a_business_date_or_an_arrival_date() {
    let business = DateAxis::from_column("order_date");
    assert!(business.source.is_business_date());
    assert!(business.source.describe().contains("each row is about"));

    let arrival = DateAxis::ingest_date();
    assert!(!arrival.source.is_business_date());
    assert!(
        arrival
            .source
            .describe()
            .contains("not the date the row is about"),
        "the description must say what it is NOT: {}",
        arrival.source.describe()
    );
}

#[test]
fn ingest_date_is_recorded_explicitly_rather_than_being_an_absence() {
    assert_eq!(DateAxis::ingest_date().source, DateSource::IngestDate);
    assert_eq!(
        DateAxis::from_configuration(&Configuration::new())
            .expect("an empty configuration is valid")
            .source,
        DateSource::IngestDate
    );
}

#[test]
fn a_null_in_the_declared_source_is_an_error_not_todays_date() {
    let error = AxisError::NullDate {
        column: "order_date".to_string(),
    };
    let message = error.to_string();
    assert!(
        message.contains("Refusing rather than substituting today"),
        "{message}"
    );
    assert!(
        message.contains("inseparably"),
        "the message must say why a fallback is unrecoverable: {message}"
    );
}

#[test]
fn an_axis_round_trips_through_a_tables_configuration() {
    let original = DateAxis::from_column("order_date").at(Granularity::Month);
    let configuration = original.to_configuration();

    assert_eq!(
        configuration.get(SOURCE_KEY),
        Some(&"order_date".to_string())
    );
    assert_eq!(
        configuration.get(GRANULARITY_KEY),
        Some(&"month".to_string())
    );
    assert_eq!(
        DateAxis::from_configuration(&configuration).expect("valid"),
        original
    );
}

#[test]
fn an_unrecognised_granularity_is_refused_rather_than_defaulted() {
    let mut configuration = Configuration::new();
    configuration.insert(GRANULARITY_KEY.to_string(), "weekly".to_string());

    let Err(error) = DateAxis::from_configuration(&configuration) else {
        panic!("'weekly' is not a granularity this system has");
    };
    assert_eq!(
        error,
        AxisError::UnknownGranularity {
            offered: "weekly".to_string()
        }
    );
    assert!(error
        .to_string()
        .contains("rewrites the whole table for a typo"));
}

#[test]
fn the_default_granularity_is_daily() {
    assert_eq!(DateAxis::ingest_date().granularity, Granularity::Day);
    assert_eq!(Granularity::default(), Granularity::Day);
}

#[test]
fn a_partition_path_is_the_hive_convention_external_engines_parse() {
    let axis = DateAxis::from_column("order_date");
    assert_eq!(axis.partition_path(LEAP_MARCH), "sank_data_date=2024-03-01");
}

#[test]
fn a_coarser_granularity_truncates_rather_than_rounds() {
    let twentieth = LEAP_MARCH + 19;
    assert_eq!(
        DateAxis::from_column("d")
            .at(Granularity::Day)
            .partition_of(twentieth),
        "2024-03-20"
    );
    assert_eq!(
        DateAxis::from_column("d")
            .at(Granularity::Month)
            .partition_of(twentieth),
        "2024-03"
    );
    assert_eq!(
        DateAxis::from_column("d")
            .at(Granularity::Year)
            .partition_of(twentieth),
        "2024"
    );
}

#[test]
fn partition_values_sort_the_way_the_dates_do() {
    let axis = DateAxis::from_column("d");
    let chronological: Vec<String> = [LEAP_MARCH, LEAP_MARCH + 40, LEAP_MARCH + 400]
        .iter()
        .map(|d| axis.partition_of(*d))
        .collect();

    let mut shuffled = vec![
        chronological[2].clone(),
        chronological[0].clone(),
        chronological[1].clone(),
    ];
    shuffled.sort();
    assert_eq!(shuffled, chronological);
}

#[test]
fn the_calendar_is_right_at_the_dates_that_break_naive_arithmetic() {
    assert_eq!(civil_from_days(0), (1970, 1, 1), "the epoch");
    assert_eq!(civil_from_days(-1), (1969, 12, 31), "the day before it");
    assert_eq!(civil_from_days(LEAP_MARCH), (2024, 3, 1));
    assert_eq!(civil_from_days(LEAP_MARCH - 1), (2024, 2, 29), "a leap day");
    assert_eq!(
        civil_from_days(11_016),
        (2000, 2, 29),
        "2000 was a leap year"
    );
    assert_eq!(civil_from_days(-25_508), (1900, 3, 1));
    assert_eq!(civil_from_days(-25_509), (1900, 2, 28), "1900 was not");
}

#[test]
fn every_day_of_a_leap_year_round_trips() {
    let start = 19_723; // 2024-01-01
    let mut expected_month = 1u32;
    let mut expected_day = 1u32;
    let lengths: [u32; 12] = [31, 29, 31, 30, 31, 30, 31, 31, 30, 31, 30, 31];

    for offset in 0..366 {
        let (year, month, day) = civil_from_days(start + offset);
        assert_eq!(year, 2024, "day {offset}");
        assert_eq!((month, day), (expected_month, expected_day), "day {offset}");

        expected_day += 1;
        if expected_day > lengths[(expected_month - 1) as usize] {
            expected_day = 1;
            expected_month += 1;
        }
    }
}

#[test]
fn a_source_column_using_the_reserved_prefix_is_a_collision() {
    assert!(is_reserved("sank_data_date"));
    assert!(is_reserved("sank_anything"));
    assert!(!is_reserved("sankhya_like"), "only the exact prefix");
    assert!(!is_reserved("order_date"));

    let error = AxisError::ReservedName {
        column: "sank_total".to_string(),
    };
    assert!(error
        .to_string()
        .contains("disappears behind a system value"));
}
