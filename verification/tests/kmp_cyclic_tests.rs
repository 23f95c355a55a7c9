use kmp_cyclic::calculate_next;
use kmp_cyclic::cyclic_of_table;
use kmp_cyclic::is_cyclic;

#[test]
fn empty_string_has_empty_table_and_is_not_cyclic() {
    let s = String::new();
    assert_eq!(calculate_next(&s), Vec::<usize>::new());
    assert!(!is_cyclic(&s));
}

#[test]
fn single_character_is_not_cyclic() {
    let s = String::from("a");
    assert_eq!(calculate_next(&s), vec![0]);
    assert!(!is_cyclic(&s));
}

#[test]
fn two_equal_characters_are_cyclic() {
    let s = String::from("aa");
    assert_eq!(calculate_next(&s), vec![0, 1]);
    assert!(is_cyclic(&s));
}

#[test]
fn two_distinct_characters_are_not_cyclic() {
    let s = String::from("ab");
    assert_eq!(calculate_next(&s), vec![0, 0]);
    assert!(!is_cyclic(&s));
}

#[test]
fn three_repetitions_of_abc_are_cyclic() {
    let s = String::from("abcabcabc");
    assert_eq!(calculate_next(&s), vec![0, 0, 0, 1, 2, 3, 4, 5, 6]);
    assert!(is_cyclic(&s));
}

#[test]
fn four_repetitions_of_one_character_are_cyclic() {
    let s = String::from("aaaa");
    assert_eq!(calculate_next(&s), vec![0, 1, 2, 3]);
    assert!(is_cyclic(&s));
}

#[test]
fn four_distinct_characters_are_not_cyclic() {
    let s = String::from("abcd");
    assert_eq!(calculate_next(&s), vec![0, 0, 0, 0]);
    assert!(!is_cyclic(&s));
}

#[test]
fn three_repetitions_of_ab_are_cyclic() {
    let s = String::from("ababab");
    assert_eq!(calculate_next(&s), vec![0, 0, 1, 2, 3, 4]);
    assert!(is_cyclic(&s));
}

#[test]
fn non_divisible_overlap_is_not_cyclic() {
    // The last entry is 3, so the candidate period length is 4, which does
    // not divide 7: a positive overlap alone is not enough.
    let s = String::from("aabaaab");
    assert_eq!(calculate_next(&s), vec![0, 1, 0, 1, 2, 2, 3]);
    assert!(!is_cyclic(&s));
}

#[test]
fn table_length_equals_character_count() {
    for text in ["", "a", "ab", "abcabcabc", "aabaaab"] {
        let s = String::from(text);
        assert_eq!(calculate_next(&s).len(), s.chars().count());
    }
}

#[test]
fn table_length_counts_characters_not_bytes() {
    let s = String::from("ééé");
    assert_eq!(calculate_next(&s), vec![0, 1, 2]);
    assert!(is_cyclic(&s));
}

#[test]
fn first_entry_is_zero() {
    for text in ["a", "aa", "ab", "abcabcabc", "aaaa"] {
        let s = String::from(text);
        assert_eq!(calculate_next(&s)[0], 0);
    }
}

#[test]
fn entries_never_exceed_their_index() {
    let s = String::from("abababab");
    for (i, entry) in calculate_next(&s).iter().enumerate() {
        assert!(*entry <= i);
    }
}

#[test]
fn builder_is_deterministic() {
    for text in ["", "a", "abcabcabc", "aabaaab"] {
        let s = String::from(text);
        assert_eq!(calculate_next(&s), calculate_next(&s));
    }
}

#[test]
fn verdict_from_table_alone() {
    assert!(!cyclic_of_table(&Vec::new()));
    assert!(!cyclic_of_table(&vec![0]));
    assert!(cyclic_of_table(&vec![0, 1]));
    assert!(!cyclic_of_table(&vec![0, 0]));
    assert!(cyclic_of_table(&vec![0, 0, 1, 2, 3, 4]));
    assert!(!cyclic_of_table(&vec![0, 1, 0, 1, 2, 2, 3]));
}
