use string_periods::period::blockwise;
use string_periods::period::modular;

#[test]
fn draft_it_works() {
    assert_eq!(blockwise::repeated_substring_pattern("abab".to_string()), true);
    assert_eq!(blockwise::repeated_substring_pattern("aba".to_string()), false);
    assert_eq!(blockwise::repeated_substring_pattern("abcabcabcabc".to_string()), true);
    assert_eq!(blockwise::repeated_substring_pattern("a".to_string()), false);
    assert_eq!(blockwise::repeated_substring_pattern("".to_string()), false);
    assert_eq!(blockwise::repeated_substring_pattern("abac".to_string()), false);
}

#[test]
fn test_repeated_substring_pattern() {
    assert_eq!(modular::repeated_substring_pattern("abab".to_string()), true);
    assert_eq!(modular::repeated_substring_pattern("aba".to_string()), false);
    assert_eq!(modular::repeated_substring_pattern("abcabcabcabc".to_string()), true);
    assert_eq!(modular::repeated_substring_pattern("a".to_string()), false);
    assert_eq!(modular::repeated_substring_pattern("".to_string()), false);
    assert_eq!(modular::repeated_substring_pattern("abac".to_string()), false);
}

fn both(s: &str) -> bool {
    let a = blockwise::repeated_substring_pattern(s.to_string());
    let b = modular::repeated_substring_pattern(s.to_string());
    assert_eq!(a, b, "the two detectors disagree on {:?}", s);
    a
}

#[test]
fn block_written_out_k_times_is_repeated() {
    for block in ["a", "ab", "xyz", "abca", "é"] {
        for k in 2..6 {
            assert!(both(&block.repeat(k)), "{:?} x {}", block, k);
        }
    }
}

#[test]
fn short_strings_are_not_repeated() {
    assert!(!both(""));
    assert!(!both("z"));
    assert!(!both("ab"));
}

#[test]
fn strings_without_internal_period_are_not_repeated() {
    assert!(!both("abcd"));
    assert!(!both("abcab"));
    assert!(!both("aab"));
    assert!(!both("abaab"));
}

#[test]
fn period_of_whole_block_not_only_first_byte() {
    assert!(both("aaaa"));
    assert!(both("abaaba"));
    assert!(!both("abaabb"));
    assert!(!both("aaaab"));
}

#[test]
fn multibyte_characters_work_on_bytes() {
    assert!(both("éé"));
    assert!(both("日本日本"));
    assert!(!both("é"));
    assert!(!both("日本"));
}
