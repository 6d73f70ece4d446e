use jaro_winkler::jaro_winkler;
use superwhich::{
    compose_highlight, contains_pattern, emphasize, Color, find_executables, find_first, highlight_styled,
    highlight_text, merge_matches, scan_directory, Candidate,
};

fn candidate(dir: &str, name: &str, pattern: &str, threshold: f64) -> Candidate {
    let similar = jaro_winkler(&name.to_lowercase(), &pattern.to_lowercase()) >= threshold;
    Candidate {
        path: format!("{dir}/{name}"),
        name: name.to_string(),
        similar,
    }
}

fn listing(dir: &str, names: &[&str], pattern: &str, threshold: f64) -> Vec<Candidate> {
    names
        .iter()
        .map(|n| candidate(dir, n, pattern, threshold))
        .collect()
}

fn plain(name: &str, path: &str, similar: bool) -> Candidate {
    Candidate {
        path: path.to_string(),
        name: name.to_string(),
        similar,
    }
}

fn strip_markers(s: &str) -> String {
    s.replace("\u{1b}[1;31m", "").replace("\u{1b}[0m", "")
}

#[test]
fn test_find_executables() {
    let dir = "/tmp/bins";
    let example_bins = ["ll", "la", "lsx", "lsa", "as", "grep", "dd", "rm", "rmz"];
    let names: Vec<String> = example_bins.iter().map(|x| format!("{x}.exe")).collect();
    let name_refs: Vec<&str> = names.iter().map(|s| s.as_str()).collect();
    let listings = vec![listing(dir, &name_refs, "LS", 0.7)];
    let expected: Vec<String> = ["lsa", "lsx"]
        .iter()
        .map(|x| format!("{dir}/{x}.exe"))
        .collect();
    let found = find_executables(&listings, "LS");
    assert_eq!(found, expected, "found: {found:#?} expected: {expected:#?}",);
}

#[test]
fn test_highlight_text() {
    colored::control::set_override(true);
    // windows paths and separator
    assert_eq!(
        highlight_text("C:\\some\\bin\\lsx.exe", "LS", Color::Red, Some('\\')),
        "C:\\some\\bin\\\u{1b}[1;31mls\u{1b}[0mx.exe"
    );

    // unix paths and separator
    assert_eq!(
        highlight_text("/usr/bin/lsx", "LS", Color::Red, Some('/')),
        "/usr/bin/\u{1b}[1;31mls\u{1b}[0mx"
    );
}

#[test]
fn scan_matches_substrings_only() {
    let listings = vec![vec![
        plain("lsx", "/opt/bin/lsx", false),
        plain("lsa", "/opt/bin/lsa", false),
        plain("ll", "/opt/bin/ll", false),
        plain("grep", "/opt/bin/grep", false),
    ]];
    assert_eq!(
        find_executables(&listings, "LS"),
        vec!["/opt/bin/lsa".to_string(), "/opt/bin/lsx".to_string()]
    );
}

#[test]
fn scan_with_everything_rejected_is_empty() {
    let listings: Vec<Vec<Candidate>> = vec![vec![]];
    assert!(find_executables(&listings, "LS").is_empty());
}

#[test]
fn scan_without_directories_is_empty() {
    let listings: Vec<Vec<Candidate>> = vec![];
    assert!(find_executables(&listings, "LS").is_empty());
}

#[test]
fn missing_directory_contributes_nothing() {
    let names = ["lsx", "grep"];
    let listings = vec![listing("/opt/bin", &names, "ls", 0.7), vec![]];
    assert_eq!(
        find_executables(&listings, "ls"),
        vec!["/opt/bin/lsx".to_string()]
    );
}

#[test]
fn scan_is_independent_of_directory_order() {
    let a = listing("/b", &["lsx", "ls", "cat"], "ls", 0.7);
    let b = listing("/a", &["lsof", "ls"], "ls", 0.7);
    let r1 = find_executables(&vec![a, b], "ls");
    let a = listing("/b", &["cat", "ls", "lsx"], "ls", 0.7);
    let b = listing("/a", &["ls", "lsof"], "ls", 0.7);
    let r2 = find_executables(&vec![b, a], "ls");
    assert_eq!(r1, r2);
    assert_eq!(r1, vec!["/a/ls", "/a/lsof", "/b/ls", "/b/lsx"]);
}

#[test]
fn scan_removes_duplicates() {
    let a = listing("/usr/bin", &["ls", "lsblk"], "ls", 0.7);
    let b = listing("/usr/bin", &["ls", "lsblk"], "ls", 0.7);
    assert_eq!(
        find_executables(&vec![a, b], "ls"),
        vec!["/usr/bin/ls", "/usr/bin/lsblk"]
    );
}

#[test]
fn scan_output_is_sorted_by_full_path() {
    let a = vec![
        plain("zls", "/z/zls", false),
        plain("als", "/a-b/als", false),
        plain("ls", "/a/ls", false),
    ];
    assert_eq!(
        find_executables(&vec![a], "LS"),
        vec!["/a-b/als", "/a/ls", "/z/zls"]
    );
}

#[test]
fn substring_wins_over_a_low_score() {
    let a = vec![plain("MyLsTool", "/x/MyLsTool", false)];
    assert_eq!(find_executables(&vec![a], "ls"), vec!["/x/MyLsTool"]);
}

#[test]
fn similarity_decides_without_substring() {
    let a = vec![
        plain("grep", "/x/grep", true),
        plain("cat", "/x/cat", false),
    ];
    assert_eq!(find_executables(&vec![a], "grpe"), vec!["/x/grep"]);
}

#[test]
fn similarity_from_jaro_winkler_score() {
    let a = listing("/x", &["martha", "zzzzzz"], "marhta", 0.9);
    assert_eq!(find_executables(&vec![a], "marhta"), vec!["/x/martha"]);
}

#[test]
fn scan_directory_keeps_listing_order() {
    let a = vec![
        plain("lsz", "/x/lsz", false),
        plain("cat", "/x/cat", false),
        plain("lsa", "/x/lsa", false),
        plain("dog", "/x/dog", true),
    ];
    assert_eq!(scan_directory(&a, "ls"), vec!["/x/lsz", "/x/lsa", "/x/dog"]);
}

#[test]
fn merge_sorts_and_deduplicates() {
    let locals = vec![
        vec!["/b".to_string(), "/a".to_string()],
        vec!["/c".to_string(), "/a".to_string(), "/b".to_string()],
    ];
    assert_eq!(merge_matches(&locals), vec!["/a", "/b", "/c"]);
}

#[test]
fn merge_puts_prefix_first() {
    let locals = vec![vec!["/ab".to_string(), "/a".to_string(), "/".to_string()]];
    assert_eq!(merge_matches(&locals), vec!["/", "/a", "/ab"]);
}

#[test]
fn contains_pattern_ignores_case_of_name() {
    assert!(contains_pattern("LSX", "ls"));
    assert!(!contains_pattern("grep", "ls"));
}

#[test]
fn find_first_gives_first_position() {
    assert_eq!(find_first("abcabc", "bc"), Some(1));
    assert_eq!(find_first("abc", "x"), None);
    assert_eq!(find_first("ab", "abc"), None);
    assert_eq!(find_first("abc", ""), Some(0));
    assert_eq!(find_first("äls", "ls"), Some(1));
}

#[test]
fn compose_inserts_separator() {
    assert_eq!(compose_highlight("/usr/bin", '/', "lsx", 0, 2, "[ls]"), "/usr/bin/[ls]x");
    assert_eq!(compose_highlight("/", '/', "lsx", 1, 2, "<s>"), "/l<s>x");
    assert_eq!(compose_highlight("", '/', "lsx", 2, 3, "X"), "lsX");
}

#[test]
fn highlight_unix_path() {
    colored::control::set_override(true);
    assert_eq!(
        highlight_text("/usr/bin/lsx", "LS", Color::Red, Some('/')),
        "/usr/bin/\u{1b}[1;31mls\u{1b}[0mx"
    );
}

#[test]
fn highlight_without_match_is_plain() {
    colored::control::set_override(true);
    assert_eq!(
        highlight_text("C:\\bin\\foo.exe", "LS", Color::Red, Some('\\')),
        "C:\\bin\\foo.exe"
    );
    assert_eq!(
        highlight_text("/usr/bin/grep", "LS", Color::Red, Some('/')),
        "/usr/bin/grep"
    );
}

#[test]
fn highlight_keeps_original_case() {
    colored::control::set_override(true);
    assert_eq!(
        highlight_text("/usr/bin/LSX", "ls", Color::Red, Some('/')),
        "/usr/bin/\u{1b}[1;31mLS\u{1b}[0mX"
    );
}

#[test]
fn highlight_root_level_path() {
    colored::control::set_override(true);
    assert_eq!(
        highlight_text("/lsx", "ls", Color::Red, Some('/')),
        "/\u{1b}[1;31mls\u{1b}[0mx"
    );
    assert_eq!(
        highlight_text("lsx", "ls", Color::Red, Some('/')),
        "\u{1b}[1;31mls\u{1b}[0mx"
    );
}

#[test]
fn highlight_round_trip_strips_to_path() {
    colored::control::set_override(true);
    for path in ["/usr/bin/lsx", "/usr/local/bin/xls", "/opt/ls"] {
        let shown = highlight_text(path, "LS", Color::Red, Some('/'));
        assert_ne!(shown, path);
        assert_eq!(strip_markers(&shown), path);
    }
}

#[test]
fn red_foreground_code() {
    colored::control::set_override(true);
    assert_eq!(emphasize("ls", Color::Red), "\u{1b}[1;31mls\u{1b}[0m");
}

#[test]
fn bright_colour_code() {
    colored::control::set_override(true);
    assert_eq!(emphasize("ls", Color::BrightCyan), "\u{1b}[1;96mls\u{1b}[0m");
    assert_eq!(Color::BrightCyan.name(), "bright cyan");
}

#[test]
fn emphasis_off_keeps_text() {
    colored::control::set_override(false);
    assert_eq!(emphasize("ls", Color::Red), "ls");
}

#[test]
fn true_colour_markup() {
    colored::control::set_override(true);
    let shown = emphasize("ls", Color::TrueColor { r: 1, g: 2, b: 3 });
    assert!(shown.starts_with("\u{1b}[1;"));
    assert!(shown.ends_with("mls\u{1b}[0m"));
    assert!(shown == "\u{1b}[1;38;2;1;2;3mls\u{1b}[0m" || shown == "\u{1b}[1;30mls\u{1b}[0m");
}

#[test]
fn highlight_leftmost_only() {
    colored::control::set_override(true);
    assert_eq!(
        highlight_text("/bin/lsls", "LS", Color::Red, Some('/')),
        "/bin/\u{1b}[1;31mls\u{1b}[0mls"
    );
}

#[test]
fn highlight_default_separator_is_platform_separator() {
    colored::control::set_override(true);
    for path in ["/usr/bin/lsx", "lsx", "/lsx", "/usr/bin/grep"] {
        assert_eq!(
            highlight_text(path, "LS", Color::Red, None),
            highlight_text(path, "LS", Color::Red, Some(std::path::MAIN_SEPARATOR))
        );
    }
}

#[test]
fn highlight_styled_without_colour_is_plain() {
    colored::control::set_override(true);
    assert_eq!(
        highlight_styled("/usr/bin/lsx", "LS", Color::Red, Some('/'), false),
        "/usr/bin/lsx"
    );
    assert_eq!(
        highlight_styled("/usr/bin/LSX", "ls", Color::Red, Some('/'), false),
        "/usr/bin/LSX"
    );
}

#[test]
fn highlight_styled_with_colour() {
    colored::control::set_override(true);
    assert_eq!(
        highlight_styled("/usr/bin/LSX", "ls", Color::Blue, Some('/'), true),
        "/usr/bin/\u{1b}[1;34mLS\u{1b}[0mX"
    );
}
