use minigrep::config::{Config, HELP, TOO_MANY_PARAMETERS, USAGE};

fn args(a: &[&str]) -> Vec<String> {
    a.iter().map(|s| s.to_string()).collect()
}

fn help() -> Config {
    Config {
        query: String::new(),
        file_path: String::new(),
        ignore_case: false,
        help: true,
    }
}

#[test]
fn help_flag_alone() {
    assert_eq!(Ok(help()), Config::new(&args(&["prog", "-h"])));
    assert_eq!(Ok(help()), Config::new(&args(&["prog", "--help"])));
}

#[test]
fn help_flag_anywhere_wins() {
    assert_eq!(Ok(help()), Config::new(&args(&["prog", "to", "poem.txt", "--help"])));
    assert_eq!(Ok(help()), Config::new(&args(&["prog", "a", "b", "-h", "c", "d"])));
}

#[test]
fn arguments() {
    assert_eq!(
        Ok(Config {
            query: "to".to_string(),
            file_path: "poem.txt".to_string(),
            ignore_case: true,
            help: false,
        }),
        Config::new(&args(&["prog", "to", "poem.txt", "-i"]))
    );
}

#[test]
fn flags_interleave_with_positionals() {
    assert_eq!(
        Ok(Config {
            query: "to".to_string(),
            file_path: "poem.txt".to_string(),
            ignore_case: true,
            help: false,
        }),
        Config::new(&args(&["prog", "--ignore_case", "to", "-i", "poem.txt"]))
    );
    assert_eq!(
        Ok(Config {
            query: "to".to_string(),
            file_path: "poem.txt".to_string(),
            ignore_case: false,
            help: false,
        }),
        Config::new(&args(&["prog", "to", "poem.txt"]))
    );
}

#[test]
fn missing_path_is_left_empty() {
    assert_eq!(
        Ok(Config {
            query: "to".to_string(),
            file_path: String::new(),
            ignore_case: true,
            help: false,
        }),
        Config::new(&args(&["prog", "-i", "to"]))
    );
}

#[test]
fn too_few_arguments() {
    assert_eq!(Err(USAGE), Config::new(&args(&["prog", "a"])));
    assert_eq!(Err(USAGE), Config::new(&args(&["prog"])));
    assert_eq!(Err(USAGE), Config::new(&args(&[])));
}

#[test]
fn too_many_parameters() {
    assert_eq!(Err(TOO_MANY_PARAMETERS), Config::new(&args(&["prog", "a", "b", "c", "d"])));
    assert_eq!(TOO_MANY_PARAMETERS, "Too many parameters");
}

#[test]
fn help_text() {
    assert_eq!(
        HELP,
        "Usage: minigrep [PATTERN] [FILE_PATH]\nSearch for a pattern in the given file\n\nFlags:\n    -h, --help          display this help message\n    -i, --ignore_case   ignore case distinctions in patterns\n"
    );
}
