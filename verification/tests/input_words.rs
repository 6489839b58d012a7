//! The tokenizer and the word accessors.

use shell_completion::input::private_complete_subcommand;
use shell_completion::{BashCompletionInput, BashCompletionInputParsingError, CompletionInput};

#[test]
fn test_previous_word() {
    let input = BashCompletionInput::from("democli run --bi");

    assert_eq!("run", input.previous_word());
}

#[test]
fn lib_test_subcommand_completions() {
    let input = BashCompletionInput::from("democli st");

    let completions = input.complete_subcommand(vec!["add", "start", "stop", "delete"]);
    assert_eq!(vec!["start", "stop"], completions);

    let completions = private_complete_subcommand(&input, vec!["add", "start", "stop", "delete"]);
    assert_eq!(vec!["start", "stop"], completions);
}

#[test]
fn test_trait_impl_two_parts() {
    let input = BashCompletionInput::from("democli src/li");

    assert_eq!(vec!["democli", "src/li"], input.args());
    assert_eq!(1, input.arg_index());
    assert_eq!(6, input.char_index());
}

#[test]
fn test_trait_impl_one_part() {
    let input = BashCompletionInput::from("democli ");

    assert_eq!(vec!["democli", ""], input.args());
    assert_eq!(1, input.arg_index());
    assert_eq!(0, input.char_index());
}

#[test]
fn cursor_inside_line_splits_current_word() {
    // "democli st|art": the cursor sits after "st", so the current word is
    // the part of the token left of the cursor
    let input = BashCompletionInput::new("democli start".to_string(), 10).unwrap();

    assert_eq!(vec!["democli", "start"], input.args());
    assert_eq!(1, input.arg_index());
    assert_eq!(2, input.char_index());
    assert_eq!("st", input.current_word());
}

#[test]
fn cursor_on_command_name_is_argument_zero() {
    let input = BashCompletionInput::new("cargo fe".to_string(), 4).unwrap();

    assert_eq!(0, input.arg_index());
    assert_eq!(4, input.char_index());
    assert_eq!("carg", input.current_word());
}

#[test]
fn adjacent_spaces_make_empty_arguments() {
    let input = BashCompletionInput::from("democli  x");

    assert_eq!(vec!["democli", "", "x"], input.args());
    assert_eq!(2, input.arg_index());
    assert_eq!(1, input.char_index());
    assert_eq!("x", input.current_word());
    assert_eq!("", input.previous_word());
}

#[test]
fn empty_current_word_completes_every_subcommand() {
    let input = BashCompletionInput::from("democli ");

    let completions = input.complete_subcommand(vec!["add", "start", "stop", "delete"]);

    assert_eq!(vec!["add", "start", "stop", "delete"], completions);
}

#[test]
fn empty_line_has_one_empty_argument() {
    let input = BashCompletionInput::from("");

    assert_eq!(vec![""], input.args());
    assert_eq!(0, input.arg_index());
    assert_eq!(0, input.char_index());
    assert_eq!("", input.current_word());
}

#[test]
fn cursor_beyond_line_is_malformed() {
    let result = BashCompletionInput::new("democli".to_string(), 8);

    assert!(matches!(
        result,
        Err(BashCompletionInputParsingError::MalformedInput)
    ));
}

#[test]
fn cursor_at_line_end_is_accepted() {
    let result = BashCompletionInput::new("democli".to_string(), 7);

    assert!(result.is_ok());
    assert_eq!("democli", result.unwrap().current_word());
}
