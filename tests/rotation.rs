use string_periods::rotation::cyclic::rotate_string;
use string_periods::rotation::doubled;

#[test]
fn rotation_draft_it_works() {
    assert_eq!(doubled::rotate_string("aa".to_string(), "a".to_string()), false);
    assert_eq!(doubled::rotate_string("abcde".to_string(), "cdeab".to_string()), true);
    assert_eq!(doubled::rotate_string("abcde".to_string(), "abced".to_string()), false);
    assert_eq!(doubled::rotate_string("abcde".to_string(), "cedab".to_string()), false);
}

#[test]
fn test_rotate_string_success() {
    assert_eq!(rotate_string("abcde", "cdeab"), true);
    assert_eq!(rotate_string("abcde", "abcde"), true);
}

#[test]
fn test_rotate_string_failure() {
    assert_eq!(rotate_string("abcde", "abced"), false);
    assert_eq!(rotate_string("abcde", "cedab"), false);
}

#[test]
fn test_different_lengths() {
    assert_eq!(rotate_string("aa", "a"), false);
    assert_eq!(rotate_string("a", "aa"), false);
}

#[test]
fn test_empty_strings() {
    assert_eq!(rotate_string("", ""), true);
    assert_eq!(rotate_string("a", ""), false);
    assert_eq!(rotate_string("", "a"), false);
}

fn both(s: &str, goal: &str) -> bool {
    let a = doubled::rotate_string(s.to_string(), goal.to_string());
    let b = rotate_string(s, goal);
    assert_eq!(a, b, "the two checks disagree on {:?} {:?}", s, goal);
    a
}

fn rotated(s: &str, k: usize) -> String {
    format!("{}{}", &s[k..], &s[..k])
}

#[test]
fn every_rotation_is_accepted() {
    for s in ["a", "ab", "abcde", "aab", "xyzzy"] {
        for k in 0..s.len() {
            assert!(both(s, &rotated(s, k)), "{:?} by {}", s, k);
        }
    }
}

#[test]
fn rotation_is_symmetric() {
    let pairs = [("abcde", "cdeab"), ("aab", "aba"), ("abcde", "abced"), ("xy", "xy")];
    for (s, goal) in pairs {
        assert_eq!(both(s, goal), both(goal, s), "{:?} {:?}", s, goal);
    }
}

#[test]
fn shorter_goal_found_in_doubled_is_still_rejected() {
    assert!(!both("ab", "b"));
    assert!(!both("abab", "ba"));
    assert!(!both("abc", "cab c"));
}

#[test]
fn same_letters_in_other_order_are_rejected() {
    assert!(!both("abcd", "acbd"));
    assert!(!both("aabb", "abab"));
    assert!(both("aabb", "bbaa"));
    assert!(both("aabb", "abba"));
}

#[test]
fn multibyte_rotation() {
    assert!(both("日本語", "語日本"));
    assert!(!both("日本語", "本日語"));
}
