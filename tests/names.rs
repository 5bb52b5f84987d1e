use assetman::formula::chars_of;
use assetman::names::compare_names;

fn cmp(a: &str, b: &str) -> i8 {
    compare_names(&chars_of(a), &chars_of(b))
}

#[test]
fn names_compare_character_by_character() {
    assert!(cmp("Bit", "Bitcoin") < 0);
    assert!(cmp("Bitcoin", "Bit") > 0);
    assert_eq!(cmp("Euro", "Euro"), 0);
    assert_eq!(cmp("", ""), 0);
    assert!(cmp("", "a") < 0);
    assert!(cmp("Zloty", "apple") < 0);
    assert!(cmp("Öl", "Zink") > 0);
}

#[test]
fn chars_of_keeps_every_character() {
    assert_eq!(chars_of("a€b"), vec!['a', '€', 'b']);
    assert!(chars_of("").is_empty());
}
