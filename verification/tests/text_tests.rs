use ecs_query::text::{
    chars_le, chars_of, contains, contains_chars, display_name, sort_names, str_le,
};

fn strings(names: &[&str]) -> Vec<String> {
    names.iter().map(|n| n.to_string()).collect()
}

#[test]
fn short_display_drops_the_module_path() {
    assert_eq!(display_name("gfx::Position", true), "Position");
    assert_eq!(display_name("bevy_audio::audio::Audio", true), "Audio");
}

#[test]
fn short_display_keeps_generic_arguments_shortened() {
    assert_eq!(
        display_name("alloc::vec::Vec<core::option::Option<u32>>", true),
        "Vec<Option<u32>>"
    );
    assert_eq!(display_name("(a::B, c::D)", true), "(B, D)");
}

#[test]
fn long_display_is_the_full_name() {
    assert_eq!(display_name("gfx::Position", false), "gfx::Position");
    assert_eq!(display_name("", false), "");
}

#[test]
fn short_display_of_a_plain_name_is_the_name() {
    assert_eq!(display_name("Velocity", true), "Velocity");
    assert_eq!(display_name("", true), "");
}

#[test]
fn chars_of_gives_every_character_in_order() {
    assert_eq!(chars_of("aé漢"), vec!['a', 'é', '漢']);
    assert_eq!(chars_of(""), Vec::<char>::new());
}

#[test]
fn contains_finds_a_pattern_anywhere() {
    assert!(contains("gfx::Position", "gfx"));
    assert!(contains("gfx::Position", "::Pos"));
    assert!(contains("gfx::Position", "tion"));
    assert!(contains("gfx::Position", "gfx::Position"));
}

#[test]
fn contains_rejects_what_is_not_there() {
    assert!(!contains("gfx::Position", "Velocity"));
    assert!(!contains("Position", "Positions"));
    assert!(!contains("", "a"));
    assert!(!contains("abab", "abb"));
}

#[test]
fn contains_is_case_sensitive() {
    assert!(contains("Position", "Pos"));
    assert!(!contains("Position", "pos"));
    assert!(!contains("position", "Pos"));
}

#[test]
fn the_empty_pattern_is_found_in_every_text() {
    assert!(contains("Position", ""));
    assert!(contains("", ""));
}

#[test]
fn contains_agrees_with_the_standard_search() {
    let texts = ["", "a", "ab", "aab", "abcabd", "ééa", "naïve::Type"];
    let patterns = ["", "a", "b", "ab", "abd", "abc", "é", "éa", "ï", "::"];
    for text in texts {
        for pattern in patterns {
            assert_eq!(contains(text, pattern), text.contains(pattern));
        }
    }
}

#[test]
fn contains_chars_works_on_character_vectors() {
    assert!(contains_chars(&vec!['a', 'b', 'c'], &vec!['b', 'c']));
    assert!(!contains_chars(&vec!['a', 'b', 'c'], &vec!['c', 'b']));
    assert!(contains_chars(&vec![], &vec![]));
}

#[test]
fn alphabetical_order_compares_character_by_character() {
    assert!(str_le("Audio", "Time"));
    assert!(!str_le("Time", "Audio"));
    assert!(str_le("Time", "Time"));
    assert!(str_le("Tim", "Time"));
    assert!(!str_le("Time", "Tim"));
    assert!(str_le("", "a"));
    assert!(!str_le("a", ""));
    assert!(str_le("", ""));
}

#[test]
fn alphabetical_order_puts_upper_case_before_lower_case() {
    assert!(str_le("Zebra", "apple"));
    assert!(!str_le("apple", "Zebra"));
}

#[test]
fn alphabetical_order_agrees_with_the_standard_order() {
    let names = ["", "a", "A", "ab", "b", "é", "z", "漢", "zz", "Time", "Tim", "time"];
    for a in names {
        for b in names {
            assert_eq!(str_le(a, b), a <= b, "{:?} <= {:?}", a, b);
            assert_eq!(chars_le(&chars_of(a), &chars_of(b)), a <= b);
        }
    }
}

#[test]
fn sort_names_orders_alphabetically() {
    assert_eq!(
        sort_names(strings(&["Time", "Audio", "Windows", "Assets"])),
        strings(&["Assets", "Audio", "Time", "Windows"])
    );
}

#[test]
fn sort_names_keeps_repeated_names() {
    assert_eq!(sort_names(strings(&["b", "a", "b", "a"])), strings(&["a", "a", "b", "b"]));
}

#[test]
fn sort_names_of_nothing_is_nothing() {
    assert_eq!(sort_names(Vec::new()), Vec::<String>::new());
}

#[test]
fn sort_names_agrees_with_the_standard_sort() {
    let names = strings(&["q", "Zeta", "alpha", "", "Alpha", "é", "alp", "zeta", "Q", "alpha"]);
    let mut expected = names.clone();
    expected.sort();
    assert_eq!(sort_names(names), expected);
}
