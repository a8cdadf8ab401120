use songbook::grep::{search_lines, select_line, GrepConfig};

fn get_test_content() -> Vec<String> {
    "## Search Utility\nIn this programming assignment, you are expected to implement a command-line utility that\nsearches for a specific pattern in one or multiple files, similar in spirit to the UNIX\n`grep` command."
        .lines()
        .map(|l| l.to_string())
        .collect()
}

const FILE_PATH: &str = "docs/grep.md";

fn config(pattern: &str) -> GrepConfig {
    GrepConfig {
        pattern: pattern.to_string(),
        files: vec![FILE_PATH.to_string()],
        ignore_case: false,
        line_number: false,
        invert_match: false,
        recursive: false,
        print_filename: false,
        colored_output: false,
    }
}

fn run(config: &GrepConfig) -> Vec<String> {
    let mut results = Vec::new();
    search_lines(FILE_PATH, &get_test_content(), config, &mut results).unwrap();
    results
}

#[test]
fn test_basic_search() {
    let config = config("Utility");
    assert_eq!(run(&config), vec!["## Search Utility"]);

    let config_no_match = GrepConfig { pattern: "NonExistentPattern".to_string(), ..config };
    assert!(run(&config_no_match).is_empty());
}

#[test]
fn test_case_insensitive_search() {
    let config_insensitive = GrepConfig { ignore_case: true, ..config("utility") };
    assert_eq!(
        run(&config_insensitive),
        vec![
            "## Search Utility",
            "In this programming assignment, you are expected to implement a command-line utility that"
        ]
    );

    let config_sensitive = config("utility");
    assert_eq!(
        run(&config_sensitive),
        vec!["In this programming assignment, you are expected to implement a command-line utility that"]
    );
}

#[test]
fn test_print_line_numbers() {
    let config_with_numbers = GrepConfig { line_number: true, ..config("Utility") };
    assert_eq!(run(&config_with_numbers), vec!["1: ## Search Utility"]);

    let config_without_numbers = GrepConfig { line_number: false, ..config_with_numbers };
    assert_eq!(run(&config_without_numbers), vec!["## Search Utility"]);
}

#[test]
fn test_invert_match() {
    let config_inverted = GrepConfig { invert_match: true, ..config("Utility") };
    assert_eq!(
        run(&config_inverted),
        vec![
            "In this programming assignment, you are expected to implement a command-line utility that",
            "searches for a specific pattern in one or multiple files, similar in spirit to the UNIX",
            "`grep` command."
        ]
    );

    let config_normal = GrepConfig { invert_match: false, ..config_inverted };
    assert_eq!(run(&config_normal), vec!["## Search Utility"]);
}

#[test]
fn test_print_filenames() {
    let config_with_filename = GrepConfig { print_filename: true, ..config("Utility") };
    let results_with_filename = run(&config_with_filename);
    assert!(results_with_filename[0].starts_with(FILE_PATH));
    assert!(results_with_filename[0].ends_with("## Search Utility"));

    let config_without_filename = GrepConfig { print_filename: false, ..config_with_filename };
    assert_eq!(run(&config_without_filename), vec!["## Search Utility"]);
}

#[test]
fn pattern_is_taken_literally() {
    let lines = vec!["a.c".to_string(), "abc".to_string(), "(x)".to_string()];
    let mut results = Vec::new();
    search_lines("f", &lines, &config("a.c"), &mut results).unwrap();
    assert_eq!(results, vec!["a.c"]);
    let mut results = Vec::new();
    search_lines("f", &lines, &config("(x)"), &mut results).unwrap();
    assert_eq!(results, vec!["(x)"]);
}

#[test]
fn results_are_appended_after_earlier_ones() {
    let mut results = vec!["earlier".to_string()];
    search_lines(FILE_PATH, &get_test_content(), &config("grep"), &mut results).unwrap();
    assert_eq!(results, vec!["earlier", "`grep` command."]);
}

#[test]
fn select_line_builds_name_number_and_text() {
    let all = GrepConfig { print_filename: true, line_number: true, ..config("x") };
    assert_eq!(select_line(&all, "a.txt", 11, "text", true, "hl"), Some("a.txt: 12: text".to_string()));
    assert_eq!(select_line(&all, "a.txt", 11, "text", false, "hl"), None);
    let colored = GrepConfig { colored_output: true, ..config("x") };
    assert_eq!(select_line(&colored, "a.txt", 0, "text", true, "hl"), Some("hl".to_string()));
    let inverted = GrepConfig { invert_match: true, line_number: true, ..config("x") };
    assert_eq!(select_line(&inverted, "a.txt", 0, "text", false, ""), Some("1: text".to_string()));
    assert_eq!(select_line(&inverted, "a.txt", 0, "text", true, ""), None);
}
