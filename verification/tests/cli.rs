use node_sweep::cli::{parse_args, usage, Request};

fn line(words: &[&str]) -> Vec<String> {
    words.iter().map(|word| word.to_string()).collect()
}

#[test]
fn no_argument_is_no_request() {
    assert_eq!(parse_args(&line(&[])), None);
    assert_eq!(parse_args(&line(&["sweep"])), None);
}

#[test]
fn a_root_alone_is_a_real_run() {
    assert_eq!(
        parse_args(&line(&["sweep", "/tmp/work"])),
        Some(Request { root: "/tmp/work".to_string(), dry_run: false })
    );
}

#[test]
fn the_flag_after_the_root_asks_for_a_dry_run() {
    assert_eq!(
        parse_args(&line(&["sweep", "projects", "--dry-run"])),
        Some(Request { root: "projects".to_string(), dry_run: true })
    );
    assert_eq!(
        parse_args(&line(&["sweep", "projects", "extra", "--dry-run", "more"])),
        Some(Request { root: "projects".to_string(), dry_run: true })
    );
}

#[test]
fn the_flag_in_first_place_is_taken_as_the_root_too() {
    assert_eq!(
        parse_args(&line(&["sweep", "--dry-run", "projects"])),
        Some(Request { root: "--dry-run".to_string(), dry_run: true })
    );
    assert_eq!(
        parse_args(&line(&["sweep", "--dry-run"])),
        Some(Request { root: "--dry-run".to_string(), dry_run: true })
    );
}

#[test]
fn the_flag_must_be_exact() {
    for word in ["--dry-run=1", "--dryrun", "-dry-run", "--DRY-RUN", "dry-run", "--dry-run "] {
        assert_eq!(
            parse_args(&line(&["sweep", "projects", word])),
            Some(Request { root: "projects".to_string(), dry_run: false })
        );
    }
}

#[test]
fn the_program_name_as_flag_counts() {
    assert_eq!(
        parse_args(&line(&["--dry-run", "projects"])),
        Some(Request { root: "projects".to_string(), dry_run: true })
    );
}

#[test]
fn usage_names_the_program() {
    assert_eq!(usage("sweep"), "Usage: sweep <root_directory_path> [--dry-run]");
    assert_eq!(usage(""), "Usage:  <root_directory_path> [--dry-run]");
}
