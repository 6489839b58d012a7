//! A completion input backed by the line and cursor a shell hands to a
//! completion script: the full text the user has entered and the cursor's
//! character offset into it.
//!
//! Arguments are the stretches of the line between single space characters
//! (two adjacent spaces enclose an empty argument; there is no quoting or
//! escaping support). The cursor's argument index is the number of spaces
//! strictly before the cursor; its character index is the length of the
//! trailing space-free run of the text before the cursor, so a cursor on a
//! trailing space sits at offset zero of an empty argument.

use vstd::prelude::*;
use vstd::string::StrSliceExecFns;

use crate::input::CompletionInput;
use crate::tokenize::count_char;
use crate::tokenize::count_char_upto;
use crate::tokenize::lemma_cursor_in_token;
use crate::tokenize::split_char;
use crate::tokenize::split_line;
use crate::tokenize::trailing_run;
use crate::tokenize::trailing_run_upto;

verus! {

/// The input data passed from the shell into a completion script: the full
/// text the user has entered and the cursor position within it. A value of
/// this type is only constructed with the cursor inside the line.
pub struct BashCompletionInput {
    /// The full text that the user has entered.
    line: String,
    /// The cursor position: a character index into `line`.
    cursor_position: usize,
}

/// Why a completion request could not be built from what the shell supplied.
/// These are fatal for the invocation: a broken request must not be answered
/// with an empty completion list, which would mask an integration bug.
#[derive(Debug, PartialEq, Eq, Clone, Copy)]
pub enum BashCompletionInputParsingError {
    /// A required positional argument was absent.
    MissingArg,
    /// The line or cursor variable the shell should export was absent.
    MissingEnvVar,
    /// The cursor variable did not hold a number.
    CursorPositionNotNumber,
    /// The cursor offset lies beyond the end of the line.
    MalformedInput,
}

impl BashCompletionInput {
    /// The text of the line.
    pub closed spec fn spec_line(&self) -> Seq<char> {
        self.line@
    }

    /// The cursor's character offset into the line.
    pub closed spec fn spec_cursor(&self) -> int {
        self.cursor_position as int
    }

    /// Build an input from a line and a cursor offset, rejecting a cursor
    /// that lies beyond the end of the line.
    pub fn new(line: String, cursor_position: usize) -> (r: Result<
        BashCompletionInput,
        BashCompletionInputParsingError,
    >)
        ensures
            cursor_position <= line@.len() ==> (r matches Ok(inp) && inp.spec_line() == line@
                && inp.spec_cursor() == cursor_position),
            cursor_position > line@.len() ==> r matches Err(
                BashCompletionInputParsingError::MalformedInput,
            ),
    {
        if cursor_position <= line.as_str().unicode_len() {
            Ok(BashCompletionInput { line, cursor_position })
        } else {
            Err(BashCompletionInputParsingError::MalformedInput)
        }
    }

    /// Build an input whose cursor sits at the end of the line.
    pub fn from(line: &str) -> (r: BashCompletionInput)
        ensures
            r.spec_line() == line@,
            r.spec_cursor() == line@.len(),
            r.wf(),
    {
        let cursor_position = line.unicode_len();
        BashCompletionInput { line: line.to_owned(), cursor_position }
    }
}

impl CompletionInput for BashCompletionInput {
    /// The stretches of the line between single spaces, in order.
    open spec fn line_args(&self) -> Seq<Seq<char>> {
        split_char(self.spec_line(), ' ')
    }

    /// The number of space characters strictly before the cursor.
    open spec fn cursor_arg(&self) -> int {
        count_char(self.spec_line().take(self.spec_cursor()), ' ') as int
    }

    /// The length of the trailing space-free run of the text before the
    /// cursor.
    open spec fn cursor_char(&self) -> int {
        trailing_run(self.spec_line().take(self.spec_cursor()), ' ') as int
    }

    /// The cursor lies inside the line.
    open spec fn wf(&self) -> bool {
        self.spec_cursor() <= self.spec_line().len()
    }

    proof fn lemma_wf(&self) {
        lemma_cursor_in_token(self.spec_line(), self.spec_cursor(), ' ');
    }

    fn args(&self) -> (r: Vec<String>) {
        split_line(self.line.as_str(), ' ')
    }

    fn arg_index(&self) -> (r: usize) {
        count_char_upto(self.line.as_str(), ' ', self.cursor_position)
    }

    fn char_index(&self) -> (r: usize) {
        trailing_run_upto(self.line.as_str(), ' ', self.cursor_position)
    }
}

} // verus!
