use gta_launcher_core::text::{chars_of, contains_chars, occurs_at_index};

fn chars(s: &str) -> Vec<char> {
    s.chars().collect()
}

#[test]
fn characters_come_in_order() {
    assert_eq!(chars_of("a/é名"), vec!['a', '/', 'é', '名']);
    assert_eq!(chars_of(""), Vec::<char>::new());
}

#[test]
fn needle_is_found_where_it_stands() {
    let hay = chars("xsteamx");
    assert!(occurs_at_index(&hay, 1, &chars("steam")));
    assert!(!occurs_at_index(&hay, 0, &chars("steam")));
    assert!(!occurs_at_index(&hay, 2, &chars("steam")));
    assert!(!occurs_at_index(&hay, 3, &chars("steam")));
    assert!(!occurs_at_index(&hay, 7, &chars("x")));
    assert!(!occurs_at_index(&hay, 100, &chars("x")));
    assert!(occurs_at_index(&hay, 6, &chars("x")));
    assert!(occurs_at_index(&hay, 7, &chars("")));
    assert!(!occurs_at_index(&hay, 8, &chars("")));
}

#[test]
fn needle_is_found_anywhere() {
    assert!(contains_chars(&chars("xsteamx"), &chars("steam")));
    assert!(contains_chars(&chars("steam"), &chars("steam")));
    assert!(contains_chars(&chars("ssteam"), &chars("steam")));
    assert!(contains_chars(&chars("stesteam"), &chars("steam")));
    assert!(!contains_chars(&chars("stea"), &chars("steam")));
    assert!(!contains_chars(&chars("steaM"), &chars("steam")));
    assert!(!contains_chars(&chars(""), &chars("steam")));
    assert!(contains_chars(&chars(""), &chars("")));
    assert!(contains_chars(&chars("abc"), &chars("")));
}

#[test]
fn search_agrees_with_str_contains() {
    let hays = ["", "a", "ab", "aab", "abab", "baba", "名前名", "aaa"];
    let needles = ["", "a", "b", "ab", "ba", "aa", "名", "前名", "abc"];
    for hay in hays {
        for needle in needles {
            assert_eq!(contains_chars(&chars(hay), &chars(needle)), hay.contains(needle));
        }
    }
}
