use when3meet::text::{chars_of, contains, name_matches, split, split_chars};

fn strings(items: &[&str]) -> Vec<String> {
    items.iter().map(|s| s.to_string()).collect()
}

#[test]
fn chars_of_keeps_every_character() {
    assert_eq!(chars_of(""), Vec::<char>::new());
    assert_eq!(chars_of("a,b"), vec!['a', ',', 'b']);
    assert_eq!(chars_of("né|ü"), vec!['n', 'é', '|', 'ü']);
}

#[test]
fn split_of_empty_text_is_one_empty_piece() {
    assert_eq!(split("", ','), strings(&[""]));
}

#[test]
fn split_without_separator_is_the_text() {
    assert_eq!(split("Muneer", ','), strings(&["Muneer"]));
}

#[test]
fn split_keeps_empty_pieces() {
    assert_eq!(split(",", ','), strings(&["", ""]));
    assert_eq!(split("a,", ','), strings(&["a", ""]));
    assert_eq!(split(",a", ','), strings(&["", "a"]));
    assert_eq!(split("a,,b", ','), strings(&["a", "", "b"]));
}

#[test]
fn split_agrees_with_std() {
    for text in ["1693746000,0,1,0", " a , b ", "|,|", "é,ü,,"] {
        let expected: Vec<String> = text.split(',').map(|s| s.to_string()).collect();
        assert_eq!(split(text, ','), expected);
    }
}

#[test]
fn split_chars_takes_the_given_range() {
    let chars: Vec<char> = "'a|b|c'".chars().collect();
    assert_eq!(split_chars(&chars, 1, 6, '|'), strings(&["a", "b", "c"]));
    assert_eq!(split_chars(&chars, 3, 3, '|'), strings(&[""]));
    assert_eq!(split_chars(&chars, 0, 7, '|'), strings(&["'a", "b", "c'"]));
}

#[test]
fn contains_finds_a_run_anywhere() {
    let hay: Vec<char> = " muneer lalji ".chars().collect();
    let find = |needle: &str| contains(&hay, &needle.chars().collect());
    assert!(find(""));
    assert!(find(" mun"));
    assert!(find("muneer"));
    assert!(find("lji "));
    assert!(find(" muneer lalji "));
    assert!(!find("munir"));
    assert!(!find(" muneer lalji  "));
    assert!(!find("mr"));
}

#[test]
fn contains_in_empty_text() {
    let empty: Vec<char> = Vec::new();
    assert!(contains(&empty, &empty));
    assert!(!contains(&empty, &vec!['a']));
}

#[test]
fn exact_matching_is_equality() {
    let name = "Muneer".to_string();
    assert!(name_matches(&name, &"Muneer".to_string(), false));
    assert!(!name_matches(&name, &"muneer".to_string(), false));
    assert!(!name_matches(&name, &"Mun".to_string(), false));
    assert!(!name_matches(&name, &"".to_string(), false));
}

#[test]
fn flexible_matching_ignores_case() {
    let name = " mUnEeR lAlJi ".to_string();
    assert!(name_matches(&name, &"Muneer".to_string(), true));
    assert!(name_matches(&name, &"LALJI".to_string(), true));
    assert!(name_matches(&name, &"".to_string(), true));
    assert!(!name_matches(&name, &"Brian".to_string(), true));
    assert!(name_matches(&"MUNEER".to_string(), &"muneer".to_string(), true));
    assert!(name_matches(&"ÉMILE".to_string(), &"émile".to_string(), true));
}

#[test]
fn flexible_matching_is_one_way() {
    assert!(!name_matches(&"Mun".to_string(), &"Muneer".to_string(), true));
}
