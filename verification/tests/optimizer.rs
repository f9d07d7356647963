use when3meet::fetch_availability::model::{Person, Slot};
use when3meet::optimal::algo::{
    count_available, find_opt, has_all_available, has_available, max_available,
};

fn person(name: &str, available: bool) -> Person {
    Person { name: name.to_string(), available }
}

fn trio(muneer: bool, brian: bool, garrett: bool) -> Vec<Person> {
    vec![person("Muneer", muneer), person("Brian", brian), person("Garrett", garrett)]
}

fn strings(items: &[&str]) -> Vec<String> {
    items.iter().map(|s| s.to_string()).collect()
}

fn with_counts(counts: &[usize]) -> Vec<Slot> {
    counts
        .iter()
        .enumerate()
        .map(|(i, count)| Slot::new(i as i64 * 10_000, trio(*count > 0, *count > 1, *count > 2)))
        .collect()
}

#[test]
fn required_pair_gives_the_one_slot_with_both() {
    let slots = vec![
        Slot::new(1693746000, trio(false, false, false)),
        Slot::new(1693746900, trio(true, false, false)),
        Slot::new(1693747800, trio(true, true, false)),
    ];
    let opt = find_opt(&slots, &strings(&["Muneer", "Brian"]), &false);
    assert_eq!(
        opt,
        vec![Slot { start_time: 1693747800, end_time: 1693748700, people: trio(true, true, false) }]
    );
}

#[test]
fn required_people_slots_are_folded() {
    let slots = vec![
        Slot::new(0, trio(true, true, false)),
        Slot::new(900, trio(true, true, false)),
        Slot::new(1800, trio(true, false, false)),
        Slot::new(2700, trio(true, true, false)),
        Slot::new(3600, trio(true, true, true)),
    ];
    let opt = find_opt(&slots, &strings(&["Muneer", "Brian"]), &false);
    assert_eq!(
        opt,
        vec![
            Slot { start_time: 0, end_time: 1800, people: trio(true, true, false) },
            Slot { start_time: 2700, end_time: 3600, people: trio(true, true, false) },
            Slot { start_time: 3600, end_time: 4500, people: trio(true, true, true) },
        ]
    );
}

#[test]
fn most_available_slots_are_not_folded() {
    let slots = vec![
        Slot::new(0, trio(true, true, false)),
        Slot::new(900, trio(true, true, false)),
        Slot::new(1800, trio(true, false, false)),
    ];
    let opt = find_opt(&slots, &[], &false);
    assert_eq!(opt, vec![slots[0].clone(), slots[1].clone()]);
}

#[test]
fn flexible_naming_matches_case_insensitive_part() {
    let slots = vec![Slot::new(
        0,
        vec![person(" mUnEeR lAlJi ", true), person(" reicher, brian", false)],
    )];
    assert_eq!(find_opt(&slots, &strings(&["Muneer"]), &true), slots);
    assert_eq!(find_opt(&slots, &strings(&["MUNEER LALJI"]), &true), slots);
    assert_eq!(find_opt(&slots, &strings(&["Muneer"]), &false), vec![]);
    assert_eq!(find_opt(&slots, &strings(&["Brian"]), &true), vec![]);
    assert_eq!(find_opt(&slots, &strings(&["Muneer", "Brian"]), &true), vec![]);
}

#[test]
fn two_required_names_may_match_one_person() {
    let slots = vec![Slot::new(0, vec![person("Muneer Brian", true), person("Garrett", false)])];
    assert_eq!(find_opt(&slots, &strings(&["muneer", "brian"]), &true), slots);
    assert_eq!(find_opt(&slots, &strings(&["Muneer Brian", "Muneer Brian"]), &false), slots);
}

#[test]
fn a_person_listed_twice_counts_where_available() {
    let slots = vec![Slot::new(0, vec![person("Muneer", false), person("Muneer", true)])];
    assert_eq!(find_opt(&slots, &strings(&["Muneer"]), &false), slots);
}

#[test]
fn a_name_never_available_leaves_nothing() {
    let slots = vec![
        Slot::new(0, trio(true, true, false)),
        Slot::new(900, trio(true, false, false)),
        Slot::new(1800, trio(false, true, false)),
    ];
    assert_eq!(find_opt(&slots, &strings(&["Muneer", "Garrett"]), &false), vec![]);
    assert_eq!(find_opt(&slots, &strings(&["Nobody"]), &true), vec![]);
    assert_eq!(find_opt(&slots, &strings(&["Muneer", "Brian"]), &false).len(), 1);
}

#[test]
fn the_slot_with_three_available_wins() {
    let slots = with_counts(&[0, 1, 2, 3, 2]);
    let opt = find_opt(&slots, &[], &false);
    assert_eq!(opt, vec![slots[3].clone()]);
    assert_eq!(max_available(&slots), 3);
}

#[test]
fn ties_are_all_returned_in_order() {
    let slots = with_counts(&[2, 1, 2, 0, 2]);
    let opt = find_opt(&slots, &[], &true);
    assert_eq!(opt, vec![slots[0].clone(), slots[2].clone(), slots[4].clone()]);
}

#[test]
fn nobody_available_gives_nothing() {
    let slots = with_counts(&[0, 0, 0]);
    assert_eq!(find_opt(&slots, &[], &false), vec![]);
    assert_eq!(max_available(&slots), 0);
}

#[test]
fn no_slots_give_nothing() {
    assert_eq!(find_opt(&[], &[], &false), vec![]);
    assert_eq!(find_opt(&[], &strings(&["Muneer"]), &false), vec![]);
    assert_eq!(max_available(&[]), 0);
}

#[test]
fn counting_and_attendance() {
    assert_eq!(count_available(&trio(true, false, true)), 2);
    assert_eq!(count_available(&Vec::new()), 0);
    let slot = Slot::new(0, trio(true, false, true));
    assert!(has_available(&slot, &"Garrett".to_string(), false));
    assert!(!has_available(&slot, &"Brian".to_string(), false));
    assert!(!has_available(&slot, &"garrett".to_string(), false));
    assert!(has_available(&slot, &"garrett".to_string(), true));
    assert!(has_all_available(&slot, &strings(&["Garrett", "Muneer"]), false));
    assert!(!has_all_available(&slot, &strings(&["Garrett", "Brian"]), false));
    assert!(has_all_available(&slot, &[], false));
}
