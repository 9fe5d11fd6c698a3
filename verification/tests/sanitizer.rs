use gta_launcher_core::sanitizer::{placeholder_str, rewrite, sanitize, Rule};
use regex::Regex;

/// The two rules written as regular expressions, applied in the same order.
fn with_regex(windows: &Regex, unix: &Regex, path: &str) -> String {
    let after_windows = windows.replace(path, "${1}<USER>");
    unix.replace(&after_windows, "${1}<USER>").to_string()
}

fn windows_rule() -> Regex {
    Regex::new(r"(?i)([a-z]:[\\/]Users[\\/])[^\\/]+").unwrap()
}

fn unix_rule() -> Regex {
    Regex::new(r"(?i)(/home/|/Users/)[^/]+").unwrap()
}

/// A small deterministic generator, so that a failure can be repeated.
fn next(state: &mut u64) -> u64 {
    *state = state.wrapping_mul(6364136223846793005).wrapping_add(1442695040888963407);
    *state >> 33
}

#[test]
fn windows_home_is_replaced() {
    assert_eq!(
        sanitize("C:\\Users\\Admin\\Games\\Steam\\GTA5"),
        "C:\\Users\\<USER>\\Games\\Steam\\GTA5"
    );
}

#[test]
fn linux_home_is_replaced() {
    assert_eq!(sanitize("/home/georgij/rockstar/gtav"), "/home/<USER>/rockstar/gtav");
}

#[test]
fn mac_home_is_replaced() {
    assert_eq!(sanitize("/Users/Georgij/Games"), "/Users/<USER>/Games");
}

#[test]
fn placeholder_is_the_user_marker() {
    assert_eq!(placeholder_str(), "<USER>");
}

#[test]
fn path_without_a_home_passes_unchanged() {
    assert_eq!(sanitize("D:\\Games\\GTAV"), "D:\\Games\\GTAV");
    assert_eq!(sanitize("C:\\"), "C:\\");
    assert_eq!(sanitize(""), "");
    assert_eq!(sanitize("/opt/games/gtav"), "/opt/games/gtav");
}

#[test]
fn prefix_without_a_name_passes_unchanged() {
    assert_eq!(sanitize("C:\\Users\\"), "C:\\Users\\");
    assert_eq!(sanitize("C:\\Users"), "C:\\Users");
    assert_eq!(sanitize("C:\\Users\\\\x"), "C:\\Users\\\\x");
    assert_eq!(sanitize("/home/"), "/home/");
    assert_eq!(sanitize("/home//x"), "/home//x");
}

#[test]
fn name_at_the_end_of_the_path_is_replaced() {
    assert_eq!(sanitize("C:\\Users\\Admin"), "C:\\Users\\<USER>");
    assert_eq!(sanitize("/home/georgij"), "/home/<USER>");
}

#[test]
fn prefix_keeps_its_case_and_its_separators() {
    assert_eq!(sanitize("c:/USERS/Admin/x"), "c:/USERS/<USER>/x");
    assert_eq!(sanitize("Z:\\uSeRs/Admin\\x"), "Z:\\uSeRs/<USER>\\x");
    assert_eq!(sanitize("/HOME/bob/x"), "/HOME/<USER>/x");
    assert_eq!(sanitize("/uSERS/bob/x"), "/uSERS/<USER>/x");
}

#[test]
fn windows_name_ends_at_either_separator() {
    assert_eq!(rewrite(Rule::Windows, "C:\\Users\\a/b\\c"), "C:\\Users\\<USER>/b\\c");
    assert_eq!(rewrite(Rule::Windows, "C:\\Users\\a\\b/c"), "C:\\Users\\<USER>\\b/c");
}

#[test]
fn unix_name_ends_at_a_slash_only() {
    assert_eq!(rewrite(Rule::Unix, "/home/a\\b/c"), "/home/<USER>/c");
    assert_eq!(rewrite(Rule::Unix, "/home/a\\b"), "/home/<USER>");
}

#[test]
fn only_the_first_place_is_rewritten() {
    assert_eq!(
        rewrite(Rule::Windows, "C:\\Users\\a\\D:\\Users\\b"),
        "C:\\Users\\<USER>\\D:\\Users\\b"
    );
    assert_eq!(rewrite(Rule::Unix, "/home/a/home/b"), "/home/<USER>/home/b");
    assert_eq!(rewrite(Rule::Unix, "/Users/a/Users/b"), "/Users/<USER>/Users/b");
}

#[test]
fn match_may_start_inside_the_path() {
    assert_eq!(sanitize("\\\\?\\C:\\Users\\Admin\\x"), "\\\\?\\C:\\Users\\<USER>\\x");
    assert_eq!(sanitize("/mnt/home/bob/x"), "/mnt/home/<USER>/x");
    assert_eq!(sanitize("xC:\\Users\\Admin"), "xC:\\Users\\<USER>");
}

#[test]
fn both_rules_run_on_every_path() {
    // The Windows rule rewrites the name, and the Unix rule finds the
    // placeholder where the name stood.
    assert_eq!(sanitize("C:/Users/Admin/x"), "C:/Users/<USER>/x");
    // Each rule has a place of its own.
    assert_eq!(sanitize("/home/bob/C:\\Users\\Admin\\x"), "/home/<USER>/C:\\Users\\<USER>\\x");
    // The Unix rule takes a Windows path for one long name.
    assert_eq!(sanitize("/home/C:\\Users\\Admin\\x"), "/home/<USER>");
}

#[test]
fn each_rule_alone() {
    assert_eq!(rewrite(Rule::Windows, "/home/bob/x"), "/home/bob/x");
    assert_eq!(rewrite(Rule::Unix, "C:\\Users\\Admin\\x"), "C:\\Users\\Admin\\x");
    assert_eq!(rewrite(Rule::Windows, "C:\\Users\\Admin\\x"), "C:\\Users\\<USER>\\x");
    assert_eq!(rewrite(Rule::Unix, "/home/bob/x"), "/home/<USER>/x");
}

#[test]
fn letters_beyond_ascii_that_fold_to_ascii_count() {
    // U+017F folds to `s` and U+212A to `k`.
    assert_eq!(sanitize("C:\\U\u{17f}er\u{17f}\\Admin\\x"), "C:\\U\u{17f}er\u{17f}\\<USER>\\x");
    assert_eq!(sanitize("\u{212a}:\\Users\\Admin\\x"), "\u{212a}:\\Users\\<USER>\\x");
    assert_eq!(sanitize("\u{17f}:\\Users\\Admin\\x"), "\u{17f}:\\Users\\<USER>\\x");
    assert_eq!(sanitize("/U\u{17f}ers/bob"), "/U\u{17f}ers/<USER>");
    // Other letters do not.
    assert_eq!(sanitize("\u{e9}:\\Users\\Admin\\x"), "\u{e9}:\\Users\\Admin\\x");
    assert_eq!(sanitize("1:\\Users\\Admin\\x"), "1:\\Users\\Admin\\x");
}

#[test]
fn names_beyond_ascii_are_replaced_whole() {
    assert_eq!(sanitize("C:\\Users\\Георгий\\Games"), "C:\\Users\\<USER>\\Games");
    assert_eq!(sanitize("/home/名前/ゲーム"), "/home/<USER>/ゲーム");
    assert_eq!(sanitize("/home/a\nb/c"), "/home/<USER>/c");
}

#[test]
fn text_around_the_name_is_untouched() {
    let before = "\\\\srv\\D:/uSERs\\";
    let after = "/Grand Theft Auto V\\x64/é";
    let path = format!("{}{}{}", before, "Some One", after);
    let out = rewrite(Rule::Windows, &path);
    assert!(out.starts_with(before));
    assert!(out.ends_with(after));
    assert_eq!(out.len(), before.len() + "<USER>".len() + after.len());
    assert_eq!(out, format!("{}{}{}", before, "<USER>", after));
}

#[test]
fn sanitizing_twice_changes_nothing_more() {
    let paths = [
        "C:\\Users\\Admin\\Games\\Steam\\GTA5",
        "/home/georgij/rockstar/gtav",
        "/Users/Georgij/Games",
        "C:/Users/Admin/x",
        "/home/bob/C:\\Users\\Admin\\x",
        "/home/C:\\Users\\Admin\\x",
        "C:\\Users\\a\\D:\\Users\\b",
        "D:\\Games\\GTAV",
        "",
    ];
    for path in paths {
        let once = sanitize(path);
        assert_eq!(sanitize(&once), once, "{}", path);
    }
}

#[test]
fn each_rule_is_idempotent() {
    let paths = [
        "C:\\Users\\a\\D:\\Users\\b",
        "/home/C:\\Users\\a/D:\\Users\\b",
        "/home/a/home/b",
        "/Users/home/a",
        "/home/Users/a",
        "x/uSers/<USER>y/home/z",
    ];
    for path in paths {
        for rule in [Rule::Windows, Rule::Unix] {
            let once = rewrite(rule, path);
            assert_eq!(rewrite(rule, &once), once, "{}", path);
        }
    }
}

#[test]
fn second_pass_can_reach_a_place_that_the_unix_rule_laid_bare() {
    // The Unix rule swallows the place that the Windows rule rewrote, and
    // with it what kept the Windows rule from the second place.
    let path = "/home/C:\\Users\\a/D:\\Users\\b";
    let once = sanitize(path);
    assert_eq!(once, "/home/<USER>/D:\\Users\\b");
    assert_eq!(rewrite(Rule::Windows, &once), "/home/<USER>/D:\\Users\\<USER>");
    assert_eq!(sanitize(&once), "/home/<USER>/D:\\Users\\<USER>");
}

#[test]
fn agrees_with_the_rules_as_regular_expressions_on_chosen_paths() {
    let windows = windows_rule();
    let unix = unix_rule();
    let paths = [
        "C:\\Users\\Admin\\Games\\Steam\\GTA5",
        "/home/georgij/rockstar/gtav",
        "/Users/Georgij/Games",
        "C:/Users/Admin/x",
        "c:\\users",
        "c:\\users\\",
        "c:\\users\\\\",
        "c:\\users\\/",
        "/home",
        "/home/",
        "/home//",
        "/home/C:\\Users\\a/D:\\Users\\b",
        "/Users/home/a",
        "C:\\Users\\Users\\Users",
        "CC::\\\\Users\\\\a",
        "/home/home/home/",
        "/hom/e/home/x",
        "a:/users/b:/users/c",
        "/users//users/x/",
        "\u{212a}:/u\u{17f}er\u{17f}/\u{17f}/",
        "C:\\Users\\<USER>\\x",
        "/home/<USER>/x",
        "/home/\n/x",
        "C:\\Users\\\u{0}\\x",
        "\u{10ffff}:\\Users\\x",
    ];
    for path in paths {
        assert_eq!(sanitize(path), with_regex(&windows, &unix, path), "{:?}", path);
        assert_eq!(rewrite(Rule::Windows, path), windows.replace(path, "${1}<USER>"), "{:?}", path);
        assert_eq!(rewrite(Rule::Unix, path), unix.replace(path, "${1}<USER>"), "{:?}", path);
    }
}

#[test]
fn agrees_with_the_rules_as_regular_expressions_on_generated_paths() {
    let windows = windows_rule();
    let unix = unix_rule();
    let pieces = [
        "C", "c", "z", ":", "\\", "/", "Users", "users", "USERS", "uSeRs", "home", "HOME", "Home",
        "U\u{17f}ers", "user\u{17f}", "\u{212a}", "\u{17f}", "<USER>", "a", "bob", "x", "é", "名",
        "User", "hom", "e", "s", " ", ".", "C:\\Users\\", "/home/", "/Users/", "d:/users/",
    ];
    let mut state: u64 = 0x2545f4914f6cdd1d;
    for _ in 0..20000 {
        let count = 1 + next(&mut state) % 9;
        let mut path = String::new();
        for _ in 0..count {
            path.push_str(pieces[(next(&mut state) % pieces.len() as u64) as usize]);
        }
        assert_eq!(sanitize(&path), with_regex(&windows, &unix, &path), "{:?}", path);
    }
}

/// Tries every character from `from` up to `to` as the drive letter and
/// counts those that the Windows rule takes for one.
fn drive_letters_between(from: u32, to: u32) -> usize {
    let windows = windows_rule();
    let mut matched = 0;
    for code in from..to {
        if let Some(c) = char::from_u32(code) {
            let path = format!("{}:\\Users\\bob\\x", c);
            let out = rewrite(Rule::Windows, &path);
            assert_eq!(out, windows.replace(&path, "${1}<USER>"), "{:?}", c);
            if out != path {
                matched += 1;
            }
        }
    }
    matched
}

#[test]
fn drive_letters_of_the_basic_plane_are_those_that_fold_to_ascii() {
    // `a` to `z`, `A` to `Z`, U+017F and U+212A.
    assert_eq!(drive_letters_between(0, 0x10000), 54);
}

#[test]
fn no_drive_letters_in_planes_1_to_4() {
    assert_eq!(drive_letters_between(0x10000, 0x50000), 0);
}

#[test]
fn no_drive_letters_in_planes_5_to_8() {
    assert_eq!(drive_letters_between(0x50000, 0x90000), 0);
}

#[test]
fn no_drive_letters_in_planes_9_to_12() {
    assert_eq!(drive_letters_between(0x90000, 0xd0000), 0);
}

#[test]
fn no_drive_letters_in_planes_13_to_16() {
    assert_eq!(drive_letters_between(0xd0000, 0x110000), 0);
}

#[test]
fn agrees_with_the_rules_for_every_character_in_the_letter_positions() {
    let windows = windows_rule();
    let unix = unix_rule();
    for code in 0..0x3000u32 {
        if let Some(c) = char::from_u32(code) {
            let paths = [
                format!("C:\\{}sers\\bob", c),
                format!("C:\\U{}ers\\bob", c),
                format!("C:\\Us{}rs\\bob", c),
                format!("C:\\Use{}s\\bob", c),
                format!("C:\\User{}\\bob", c),
                format!("C{}\\Users\\bob", c),
                format!("C:{}Users\\bob", c),
                format!("C:\\Users{}bob", c),
                format!("C:\\Users\\{}", c),
                format!("/{}ome/bob", c),
                format!("/h{}me/bob", c),
                format!("/ho{}e/bob", c),
                format!("/hom{}/bob", c),
                format!("{}home/bob", c),
                format!("/home{}bob", c),
                format!("/home/{}", c),
                format!("/{}sers/bob", c),
                format!("/U{}ers/bob", c),
                format!("/User{}/bob", c),
            ];
            for path in paths.iter() {
                assert_eq!(sanitize(path), with_regex(&windows, &unix, path), "{:?}", path);
            }
        }
    }
}
