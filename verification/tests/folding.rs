use when3meet::fetch_availability::fold;
use when3meet::fetch_availability::model::{copy_people, same_people, Person, Slot};

fn person(name: &str, available: bool) -> Person {
    Person { name: name.to_string(), available }
}

fn pair(first: bool, second: bool) -> Vec<Person> {
    vec![person("Muneer", first), person("Brian", second)]
}

fn total(slots: &[Slot]) -> i64 {
    slots.iter().map(|slot| slot.end_time - slot.start_time).sum()
}

#[test]
fn new_slot_lasts_a_quarter_hour() {
    let slot = Slot::new(1693746000, pair(true, false));
    assert_eq!(slot.start_time, 1693746000);
    assert_eq!(slot.end_time, 1693746000 + 900);
    assert_eq!(slot.people, pair(true, false));
}

#[test]
fn three_consecutive_slots_fold_into_one() {
    let t: i64 = 1693746000;
    let slots = vec![
        Slot::new(t, pair(true, true)),
        Slot::new(t + 900, pair(true, true)),
        Slot::new(t + 1800, pair(true, true)),
    ];
    assert_eq!(
        fold(slots),
        vec![Slot { start_time: t, end_time: t + 2700, people: pair(true, true) }]
    );
}

#[test]
fn a_gap_breaks_the_merge() {
    let slots = vec![Slot::new(0, pair(true, true)), Slot::new(901, pair(true, true))];
    assert_eq!(fold(slots.clone()), slots);
    let overlapping = vec![Slot::new(0, pair(true, true)), Slot::new(899, pair(true, true))];
    assert_eq!(fold(overlapping.clone()), overlapping);
}

#[test]
fn different_attendance_breaks_the_merge() {
    let slots = vec![Slot::new(0, pair(true, true)), Slot::new(900, pair(true, false))];
    assert_eq!(fold(slots.clone()), slots);
    let reordered = vec![
        Slot::new(0, vec![person("a", true), person("b", true)]),
        Slot::new(900, vec![person("b", true), person("a", true)]),
    ];
    assert_eq!(fold(reordered.clone()), reordered);
    let renamed = vec![
        Slot::new(0, vec![person("a", true)]),
        Slot::new(900, vec![person("A", true)]),
    ];
    assert_eq!(fold(renamed.clone()), renamed);
    let shorter = vec![Slot::new(0, pair(true, true)), Slot::new(900, vec![person("Muneer", true)])];
    assert_eq!(fold(shorter.clone()), shorter);
}

#[test]
fn merging_goes_by_the_widened_end() {
    let slots = vec![
        Slot { start_time: 0, end_time: 900, people: pair(true, true) },
        Slot { start_time: 900, end_time: 5000, people: pair(true, true) },
        Slot { start_time: 5000, end_time: 5001, people: pair(true, true) },
        Slot { start_time: 900, end_time: 1800, people: pair(true, true) },
    ];
    assert_eq!(
        fold(slots),
        vec![
            Slot { start_time: 0, end_time: 5001, people: pair(true, true) },
            Slot { start_time: 900, end_time: 1800, people: pair(true, true) },
        ]
    );
}

#[test]
fn folding_twice_changes_nothing_more() {
    let slots = vec![
        Slot::new(0, pair(true, true)),
        Slot::new(900, pair(true, true)),
        Slot::new(1800, pair(false, true)),
        Slot::new(3600, pair(false, true)),
        Slot::new(4500, pair(false, true)),
        Slot::new(5400, pair(true, true)),
    ];
    let once = fold(slots);
    assert_eq!(once.len(), 4);
    assert_eq!(fold(once.clone()), once);
}

#[test]
fn folding_keeps_count_down_and_time_covered() {
    let slots = vec![
        Slot::new(0, pair(true, true)),
        Slot::new(900, pair(true, true)),
        Slot::new(1800, pair(true, false)),
        Slot::new(2700, pair(true, false)),
        Slot::new(3600, pair(true, false)),
    ];
    let merged = fold(slots.clone());
    assert!(merged.len() <= slots.len());
    assert_eq!(merged.len(), 2);
    assert_eq!(total(&merged), total(&slots));
    assert_eq!(total(&merged), 4500);
    assert_eq!(merged[0].start_time, 0);
    assert_eq!(merged[1].end_time, 4500);
    assert_eq!(merged[0].end_time, merged[1].start_time);
}

#[test]
fn folding_one_slot_keeps_it() {
    let slots = vec![Slot::new(7, pair(false, false))];
    assert_eq!(fold(slots.clone()), slots);
}

#[test]
fn same_people_compares_entry_by_entry() {
    assert!(same_people(&pair(true, false), &pair(true, false)));
    assert!(same_people(&Vec::new(), &Vec::new()));
    assert!(!same_people(&pair(true, false), &pair(false, true)));
    assert!(!same_people(&pair(true, false), &vec![person("Muneer", true)]));
    assert!(!same_people(
        &vec![person("a", true), person("b", true)],
        &vec![person("b", true), person("a", true)]
    ));
}

#[test]
fn copies_are_equal() {
    let people = pair(true, false);
    assert_eq!(copy_people(&people), people);
    assert_eq!(people[0].copy(), people[0]);
    let slot = Slot { start_time: 3, end_time: 8, people };
    assert_eq!(slot.copy(), slot);
}
