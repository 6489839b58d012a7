//! Completion scenarios for a cargo-style command line.

use shell_completion::cargo::{complete, complete_cargo_commands, parse_subcommand_listing};
use shell_completion::{BashCompletionInput, DirEntry};

/// A plausible discovered subcommand set, as parsed from a listing.
fn subcommands() -> Vec<String> {
    vec![
        "build".to_string(),
        "check".to_string(),
        "fetch".to_string(),
        "run".to_string(),
        "test".to_string(),
    ]
}

/// A snapshot of a project root directory.
fn root_entries() -> Vec<DirEntry> {
    vec![
        DirEntry {
            name: "src".to_string(),
            is_dir: true,
        },
        DirEntry {
            name: "target".to_string(),
            is_dir: true,
        },
        DirEntry {
            name: "Cargo.toml".to_string(),
            is_dir: false,
        },
        DirEntry {
            name: "Cargo.lock".to_string(),
            is_dir: false,
        },
    ]
}

#[test]
fn complete_subcommand_fetch() {
    let input = BashCompletionInput::from("cargo fe");
    let completions = complete(&input, &subcommands(), &root_entries());

    assert_eq!(1, completions.len());
    assert_eq!("fetch", completions[0]);
}

#[test]
fn main_complete_run_option_bin() {
    let input = BashCompletionInput::from("cargo run --bi");
    let completions = complete(&input, &subcommands(), &root_entries());

    assert_eq!(1, completions.len());
    assert_eq!("--bin", completions[0]);
}

#[test]
fn main_complete_run_option_bin_requires_name() {
    let input = BashCompletionInput::from("cargo run --bin ");
    let completions = complete(&input, &subcommands(), &root_entries());

    // this must not return the full list of flags: a value is required,
    // and no completion for it is known
    assert_eq!(0, completions.len());
}

#[test]
fn complete_run_option_target_dir() {
    let input = BashCompletionInput::from("cargo run --target-dir sr");
    let completions = complete(&input, &subcommands(), &root_entries());

    assert_eq!(1, completions.len());
    assert_eq!("src", completions[0]);
}

#[test]
fn complete_run_option_manifest_path() {
    let input = BashCompletionInput::from("cargo run --manifest-path Cargo.to");
    let completions = complete(&input, &subcommands(), &root_entries());

    assert_eq!(1, completions.len());
    assert_eq!("Cargo.toml", completions[0]);
}

#[test]
fn complete_run_option_message_format() {
    let input = BashCompletionInput::from("cargo run --message-format ");
    let completions = complete(&input, &subcommands(), &root_entries());

    assert_eq!(3, completions.len());
    assert_eq!("human", completions[0]);
    assert_eq!("json", completions[1]);
    assert_eq!("short", completions[2]);
}

#[test]
fn complete_run_option_color() {
    let input = BashCompletionInput::from("cargo run --color ");
    let completions = complete(&input, &subcommands(), &root_entries());

    assert_eq!(3, completions.len());
    assert_eq!("auto", completions[0]);
    assert_eq!("always", completions[1]);
    assert_eq!("never", completions[2]);
}

#[test]
fn complete_run_option_color_ignores_filesystem() {
    // an enum-valued flag is completed from its fixed values in their fixed
    // order, whatever the directory snapshot holds
    let input = BashCompletionInput::from("cargo run --color ");
    let no_entries: Vec<DirEntry> = Vec::new();
    let completions = complete(&input, &subcommands(), &no_entries);

    assert_eq!(vec!["auto", "always", "never"], completions);
}

#[test]
fn complete_run_option_chaining() {
    let input = BashCompletionInput::from("cargo run --color auto --manif");
    let completions = complete(&input, &subcommands(), &root_entries());

    assert_eq!(1, completions.len());
    assert_eq!("--manifest-path", completions[0]);
}

#[test]
fn complete_subcommand_test() {
    let input = BashCompletionInput::from("cargo tes");
    let completions = complete(&input, &subcommands(), &root_entries());

    assert_eq!(1, completions.len());
    assert_eq!("test", completions[0]);
}

#[test]
fn complete_test_option_lib() {
    let input = BashCompletionInput::from("cargo test --li");
    let completions = complete(&input, &subcommands(), &root_entries());

    assert_eq!(1, completions.len());
    assert_eq!("--lib", completions[0]);
}

#[test]
fn complete_subcommand_run() {
    let input = BashCompletionInput::from("cargo ru");
    let static_fallback = vec!["run".to_string(), "test".to_string()];
    let completions = complete(&input, &static_fallback, &root_entries());

    assert_eq!(1, completions.len());
    assert_eq!("run", completions[0]);
}

#[test]
fn cargo_completions_complete_run_option_bin() {
    let input = BashCompletionInput::from("cargo run --bi");
    let static_fallback = vec!["run".to_string(), "test".to_string()];
    let completions = complete(&input, &static_fallback, &root_entries());

    assert_eq!(1, completions.len());
    assert_eq!("--bin", completions[0]);
}

#[test]
fn cargo_completions_complete_run_option_bin_requires_name() {
    let input = BashCompletionInput::from("cargo run --bin ");
    let static_fallback = vec!["run".to_string(), "test".to_string()];
    let completions = complete(&input, &static_fallback, &root_entries());

    // for now, test that this doesn't return the full list of subcommands
    // eventually this could return the list of binary targets in the crate
    assert_eq!(0, completions.len());
}

#[test]
fn complete_unknown_subcommand_is_empty() {
    let input = BashCompletionInput::from("cargo build --bi");
    let completions = complete(&input, &subcommands(), &root_entries());

    assert_eq!(0, completions.len());
}

#[test]
fn complete_run_unknown_flag_is_empty() {
    let input = BashCompletionInput::from("cargo run --unknown x");
    let completions = complete(&input, &subcommands(), &root_entries());

    assert_eq!(0, completions.len());
}

#[test]
fn complete_run_after_unary_flag_offers_flags() {
    let input = BashCompletionInput::from("cargo run --release --v");
    let completions = complete(&input, &subcommands(), &root_entries());

    assert_eq!(vec!["--verbose"], completions);
}

#[test]
fn parse_subcommand_listing_skips_header_and_blanks() {
    let listing = "Installed Commands:\n    build    Compile the current package\n    fetch    Fetch dependencies\n\n    run      Run a binary\n";
    let parsed = parse_subcommand_listing(listing);

    assert_eq!(vec!["build", "fetch", "run"], parsed);
}

#[test]
fn parse_subcommand_listing_of_empty_output_is_empty() {
    let parsed = parse_subcommand_listing("");

    assert_eq!(0, parsed.len());
}

#[test]
fn complete_cargo_commands_filters_listing() {
    let input = BashCompletionInput::from("cargo fe");
    let listing = "Installed Commands:\n    build    Compile the current package\n    fetch    Fetch dependencies\n    test     Run the tests\n";
    let completions = complete_cargo_commands(&input, listing);

    assert_eq!(vec!["fetch"], completions);
}
