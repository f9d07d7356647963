use chrono::{DateTime, Duration, TimeZone, Utc};
use chrono_tz::{OffsetName, Tz};
use iana_time_zone::get_timezone;
use when3meet::fetch_availability::fold;
use when3meet::fetch_availability::model::{Person, Slot};

#[test]
fn test_fold() {
    let slots = vec![
        Slot::new(
            DateTime::parse_from_str("1693746000", "%s")
                .unwrap()
                .with_timezone(&Utc)
                .timestamp(),
            vec![
                Person {
                    name: "Muneer".to_string(),
                    available: false,
                },
                Person {
                    name: "Brian".to_string(),
                    available: false,
                },
                Person {
                    name: "Garrett".to_string(),
                    available: false,
                },
            ],
        ),
        Slot::new(
            DateTime::parse_from_str("1693746900", "%s")
                .unwrap()
                .with_timezone(&Utc)
                .timestamp(),
            vec![
                Person {
                    name: "Muneer".to_string(),
                    available: false,
                },
                Person {
                    name: "Brian".to_string(),
                    available: false,
                },
                Person {
                    name: "Garrett".to_string(),
                    available: false,
                },
            ],
        ),
        Slot::new(
            DateTime::parse_from_str("1693747800", "%s")
                .unwrap()
                .with_timezone(&Utc)
                .timestamp(),
            vec![
                Person {
                    name: "Muneer".to_string(),
                    available: true,
                },
                Person {
                    name: "Brian".to_string(),
                    available: false,
                },
                Person {
                    name: "Garrett".to_string(),
                    available: false,
                },
            ],
        ),
    ];

    let folded_slots = fold(slots);

    assert_eq!(
        folded_slots,
        vec![
            Slot {
                start_time: DateTime::parse_from_str("1693746000", "%s")
                    .unwrap()
                    .with_timezone(&Utc)
                    .timestamp(),
                end_time: DateTime::parse_from_str("1693747800", "%s")
                    .unwrap()
                    .with_timezone(&Utc)
                    .timestamp(),
                people: vec![
                    Person {
                        name: "Muneer".to_string(),
                        available: false,
                    },
                    Person {
                        name: "Brian".to_string(),
                        available: false,
                    },
                    Person {
                        name: "Garrett".to_string(),
                        available: false,
                    },
                ],
            },
            Slot::new(
                DateTime::parse_from_str("1693747800", "%s")
                    .unwrap()
                    .with_timezone(&Utc)
                    .timestamp(),
                vec![
                    Person {
                        name: "Muneer".to_string(),
                        available: true,
                    },
                    Person {
                        name: "Brian".to_string(),
                        available: false,
                    },
                    Person {
                        name: "Garrett".to_string(),
                        available: false,
                    },
                ],
            ),
        ]
    );
}

#[test]
fn test_fold_empty() {
    assert_eq!(fold(vec![]), vec![]);
}

#[test]
fn test_slot_display() {
    let start_time = Utc::now();
    let end_time = Utc::now() + Duration::hours(2);
    let slot = Slot {
        start_time: start_time.timestamp(),
        end_time: end_time.timestamp(),
        people: vec![
            Person {
                name: String::from("Muneer"),
                available: true,
            },
            Person {
                name: String::from("Garrett"),
                available: false,
            },
        ],
    };

    let tz_str = get_timezone().unwrap();

    let tz: Tz = tz_str.parse().unwrap();

    let offset = tz.offset_from_utc_date(&Utc::now().date_naive());
    let abbreviation = offset.abbreviation();

    let expected_output = format!(
        "Timestamp: {} - {} {}\nAvailable People:\n- Muneer\nUnavailable People:\n- Garrett\n",
        start_time.format("%A %I:%M%P"),
        end_time.format("%I:%M%P"),
        abbreviation
    );

    let actual_output = slot.to_text(abbreviation).unwrap();

    assert_eq!(expected_output, actual_output);
}
