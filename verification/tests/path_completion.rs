//! Directory and file completion over directory snapshots.

use shell_completion::input::private_complete_directory;
use shell_completion::paths::listing_root;
use shell_completion::{BashCompletionInput, CompletionInput, DirEntry};

/// A snapshot of a project root directory.
fn root_entries() -> Vec<DirEntry> {
    vec![
        DirEntry {
            name: "src".to_string(),
            is_dir: true,
        },
        DirEntry {
            name: "Cargo.toml".to_string(),
            is_dir: false,
        },
    ]
}

/// A snapshot of that project's source directory.
fn src_entries() -> Vec<DirEntry> {
    vec![
        DirEntry {
            name: "lib.rs".to_string(),
            is_dir: false,
        },
        DirEntry {
            name: "bash.rs".to_string(),
            is_dir: false,
        },
    ]
}

#[test]
fn lib_test_directory_completions() {
    let input = BashCompletionInput::from("democli sr");

    let completions = input.complete_directory(&root_entries());

    assert_eq!(vec!["src"], completions);
}

#[test]
fn lib_test_file_completions() {
    let input = BashCompletionInput::from("democli src/li");

    let completions = input.complete_file(&src_entries());

    assert_eq!(vec!["src/lib.rs"], completions);
}

#[test]
fn lib_test_directory_completions_project_root() {
    let input = BashCompletionInput::from("democli ./");

    let completions = input.complete_directory(&root_entries());

    assert!(completions.contains(&String::from("./src")));
    assert_eq!(1, completions.len());
}

#[test]
fn directory_completion_excludes_files() {
    // "Cargo.toml" matches the partial leaf but is not a directory: it must
    // appear in file completion and not in directory completion
    let input = BashCompletionInput::from("democli Car");

    let as_directories = input.complete_directory(&root_entries());
    let as_files = input.complete_file(&root_entries());

    assert_eq!(0, as_directories.len());
    assert_eq!(vec!["Cargo.toml"], as_files);
}

#[test]
fn explicit_dot_slash_prefix_is_preserved() {
    let input = BashCompletionInput::from("democli ./sr");

    let completions = input.complete_directory(&root_entries());

    assert_eq!(vec!["./src"], completions);
}

#[test]
fn empty_word_lists_every_directory() {
    let input = BashCompletionInput::from("democli ");

    let completions = input.complete_directory(&root_entries());

    assert_eq!(vec!["src"], completions);
}

#[test]
fn private_complete_directory_keeps_everything_in_file_mode() {
    let input = BashCompletionInput::from("democli ");

    let completions = private_complete_directory(&input, &root_entries(), true);

    assert_eq!(vec!["src", "Cargo.toml"], completions);
}

#[test]
fn listing_root_of_bare_word_is_current_directory() {
    assert_eq!("./", listing_root("sr"));
}

#[test]
fn listing_root_is_text_before_last_slash() {
    assert_eq!("src", listing_root("src/li"));
    assert_eq!(".", listing_root("./"));
    assert_eq!("a/b", listing_root("a/b/c"));
    assert_eq!("", listing_root("/us"));
}

#[test]
fn rerunning_the_same_request_gives_identical_output() {
    let first_input = BashCompletionInput::from("democli sr");
    let second_input = BashCompletionInput::from("democli sr");

    let first = first_input.complete_directory(&root_entries());
    let second = second_input.complete_directory(&root_entries());

    assert_eq!(first, second);
}
